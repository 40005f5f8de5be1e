//! `FileOptions`, with its nested types and its presence bits.
use vstd::prelude::*;
use vstd::utf8::{decode_utf8, valid_utf8};
use crate::bits::{flags_of, lemma_flags_clear, lemma_flags_get, lemma_flags_set, lemma_flags_zero};
use crate::descriptor::google_::protobuf_ as pb;
use crate::wire::{
    copy_bytes, lemma_len_bounds, lemma_varint_bounds, lemma_tag_bounds, lemma_values_prefix, parse_fixed64, parse_len, parse_packed_i32,
    parse_string, parse_tag, parse_varint, read_fixed64, read_len, read_packed_i32, read_string,
    read_tag, read_varint, shift_consumed, skip_len, skip_value, to_i32, to_i64, varint_as_i32,
    varint_as_i64, DecodeError, WIRE_TYPE_LEN,
};


verus! {

#[derive(Debug, Clone, Copy, PartialEq, Eq, Structural, Hash)]
pub struct OptimizeMode(pub i32);

impl OptimizeMode {
    /// The value `1`.
    pub fn Speed() -> (r: Self)
        ensures
            r == OptimizeMode(1),
    {
        Self(1)
    }

    /// The value `2`.
    pub fn CodeSize() -> (r: Self)
        ensures
            r == OptimizeMode(2),
    {
        Self(2)
    }

    /// The value `3`.
    pub fn LiteRuntime() -> (r: Self)
        ensures
            r == OptimizeMode(3),
    {
        Self(3)
    }
}

impl Default for OptimizeMode {
    fn default() -> (r: Self)
        ensures
            r == OptimizeMode(0),
    {
        Self(0)
    }
}

impl From<i32> for OptimizeMode {
    fn from(val: i32) -> (r: Self) {
        Self(val)
    }
}

impl vstd::std_specs::convert::FromSpecImpl<i32> for OptimizeMode {
    open spec fn obeys_from_spec() -> bool {
        true
    }

    open spec fn from_spec(v: i32) -> Self {
        OptimizeMode(v)
    }
}

/// Presence bits of the optional fields of `FileOptions`: bit `i % 8` of byte `i / 8` is flag `i`.
#[derive(Debug, PartialEq)]
pub struct _Hazzer(pub [u8; 3]);

impl View for _Hazzer {
    type V = Seq<bool>;

    open spec fn view(&self) -> Seq<bool> {
        flags_of(self.0@)
    }
}

impl Default for _Hazzer {
    fn default() -> (r: Self)
        ensures
            r@ == Seq::new(24, |i: int| false),
    {
        let r = _Hazzer([0u8, 0u8, 0u8]);
        proof {
            lemma_flags_zero(r.0@);
            assert(r@ =~= Seq::new(24, |i: int| false));
        }
        r
    }
}

impl Clone for _Hazzer {
    fn clone(&self) -> (r: Self)
        ensures
            r == *self,
    {
        _Hazzer(self.0)
    }
}

impl _Hazzer {
    ///Query presence of `java_package`
    #[inline]
    pub fn java_package(&self) -> (r: bool)
        ensures
            r == self@[0],
    {
        proof {
            lemma_flags_get(self.0@, 0, 0);
        }
        (self.0[0] & (1u8 << 0u8)) != 0
    }

    ///Set presence of `java_package`
    #[inline]
    pub fn set_java_package(&mut self) -> (r: &mut Self)
        ensures
            r@ == old(self)@.update(0, true),
            *final(self) == *final(r),
    {
        let ghost bytes = self.0@;
        self.0[0] = self.0[0] | (1u8 << 0u8);
        proof {
            lemma_flags_set(bytes, self.0@, 0, 0);
        }
        self
    }

    ///Clear presence of `java_package`
    #[inline]
    pub fn clear_java_package(&mut self) -> (r: &mut Self)
        ensures
            r@ == old(self)@.update(0, false),
            *final(self) == *final(r),
    {
        let ghost bytes = self.0@;
        self.0[0] = self.0[0] & !(1u8 << 0u8);
        proof {
            lemma_flags_clear(bytes, self.0@, 0, 0);
        }
        self
    }

    ///Builder method that sets the presence of `java_package`. Useful for initializing the Hazzer.
    #[inline]
    pub fn init_java_package(self) -> (r: Self)
        ensures
            r@ == self@.update(0, true),
    {
        let mut s = self;
        s.set_java_package();
        s
    }

    ///Query presence of `java_outer_classname`
    #[inline]
    pub fn java_outer_classname(&self) -> (r: bool)
        ensures
            r == self@[1],
    {
        proof {
            lemma_flags_get(self.0@, 0, 1);
        }
        (self.0[0] & (1u8 << 1u8)) != 0
    }

    ///Set presence of `java_outer_classname`
    #[inline]
    pub fn set_java_outer_classname(&mut self) -> (r: &mut Self)
        ensures
            r@ == old(self)@.update(1, true),
            *final(self) == *final(r),
    {
        let ghost bytes = self.0@;
        self.0[0] = self.0[0] | (1u8 << 1u8);
        proof {
            lemma_flags_set(bytes, self.0@, 0, 1);
        }
        self
    }

    ///Clear presence of `java_outer_classname`
    #[inline]
    pub fn clear_java_outer_classname(&mut self) -> (r: &mut Self)
        ensures
            r@ == old(self)@.update(1, false),
            *final(self) == *final(r),
    {
        let ghost bytes = self.0@;
        self.0[0] = self.0[0] & !(1u8 << 1u8);
        proof {
            lemma_flags_clear(bytes, self.0@, 0, 1);
        }
        self
    }

    ///Builder method that sets the presence of `java_outer_classname`. Useful for initializing the Hazzer.
    #[inline]
    pub fn init_java_outer_classname(self) -> (r: Self)
        ensures
            r@ == self@.update(1, true),
    {
        let mut s = self;
        s.set_java_outer_classname();
        s
    }

    ///Query presence of `java_multiple_files`
    #[inline]
    pub fn java_multiple_files(&self) -> (r: bool)
        ensures
            r == self@[2],
    {
        proof {
            lemma_flags_get(self.0@, 0, 2);
        }
        (self.0[0] & (1u8 << 2u8)) != 0
    }

    ///Set presence of `java_multiple_files`
    #[inline]
    pub fn set_java_multiple_files(&mut self) -> (r: &mut Self)
        ensures
            r@ == old(self)@.update(2, true),
            *final(self) == *final(r),
    {
        let ghost bytes = self.0@;
        self.0[0] = self.0[0] | (1u8 << 2u8);
        proof {
            lemma_flags_set(bytes, self.0@, 0, 2);
        }
        self
    }

    ///Clear presence of `java_multiple_files`
    #[inline]
    pub fn clear_java_multiple_files(&mut self) -> (r: &mut Self)
        ensures
            r@ == old(self)@.update(2, false),
            *final(self) == *final(r),
    {
        let ghost bytes = self.0@;
        self.0[0] = self.0[0] & !(1u8 << 2u8);
        proof {
            lemma_flags_clear(bytes, self.0@, 0, 2);
        }
        self
    }

    ///Builder method that sets the presence of `java_multiple_files`. Useful for initializing the Hazzer.
    #[inline]
    pub fn init_java_multiple_files(self) -> (r: Self)
        ensures
            r@ == self@.update(2, true),
    {
        let mut s = self;
        s.set_java_multiple_files();
        s
    }

    ///Query presence of `java_generate_equals_and_hash`
    #[inline]
    pub fn java_generate_equals_and_hash(&self) -> (r: bool)
        ensures
            r == self@[3],
    {
        proof {
            lemma_flags_get(self.0@, 0, 3);
        }
        (self.0[0] & (1u8 << 3u8)) != 0
    }

    ///Set presence of `java_generate_equals_and_hash`
    #[inline]
    pub fn set_java_generate_equals_and_hash(&mut self) -> (r: &mut Self)
        ensures
            r@ == old(self)@.update(3, true),
            *final(self) == *final(r),
    {
        let ghost bytes = self.0@;
        self.0[0] = self.0[0] | (1u8 << 3u8);
        proof {
            lemma_flags_set(bytes, self.0@, 0, 3);
        }
        self
    }

    ///Clear presence of `java_generate_equals_and_hash`
    #[inline]
    pub fn clear_java_generate_equals_and_hash(&mut self) -> (r: &mut Self)
        ensures
            r@ == old(self)@.update(3, false),
            *final(self) == *final(r),
    {
        let ghost bytes = self.0@;
        self.0[0] = self.0[0] & !(1u8 << 3u8);
        proof {
            lemma_flags_clear(bytes, self.0@, 0, 3);
        }
        self
    }

    ///Builder method that sets the presence of `java_generate_equals_and_hash`. Useful for initializing the Hazzer.
    #[inline]
    pub fn init_java_generate_equals_and_hash(self) -> (r: Self)
        ensures
            r@ == self@.update(3, true),
    {
        let mut s = self;
        s.set_java_generate_equals_and_hash();
        s
    }

    ///Query presence of `java_string_check_utf8`
    #[inline]
    pub fn java_string_check_utf8(&self) -> (r: bool)
        ensures
            r == self@[4],
    {
        proof {
            lemma_flags_get(self.0@, 0, 4);
        }
        (self.0[0] & (1u8 << 4u8)) != 0
    }

    ///Set presence of `java_string_check_utf8`
    #[inline]
    pub fn set_java_string_check_utf8(&mut self) -> (r: &mut Self)
        ensures
            r@ == old(self)@.update(4, true),
            *final(self) == *final(r),
    {
        let ghost bytes = self.0@;
        self.0[0] = self.0[0] | (1u8 << 4u8);
        proof {
            lemma_flags_set(bytes, self.0@, 0, 4);
        }
        self
    }

    ///Clear presence of `java_string_check_utf8`
    #[inline]
    pub fn clear_java_string_check_utf8(&mut self) -> (r: &mut Self)
        ensures
            r@ == old(self)@.update(4, false),
            *final(self) == *final(r),
    {
        let ghost bytes = self.0@;
        self.0[0] = self.0[0] & !(1u8 << 4u8);
        proof {
            lemma_flags_clear(bytes, self.0@, 0, 4);
        }
        self
    }

    ///Builder method that sets the presence of `java_string_check_utf8`. Useful for initializing the Hazzer.
    #[inline]
    pub fn init_java_string_check_utf8(self) -> (r: Self)
        ensures
            r@ == self@.update(4, true),
    {
        let mut s = self;
        s.set_java_string_check_utf8();
        s
    }

    ///Query presence of `optimize_for`
    #[inline]
    pub fn optimize_for(&self) -> (r: bool)
        ensures
            r == self@[5],
    {
        proof {
            lemma_flags_get(self.0@, 0, 5);
        }
        (self.0[0] & (1u8 << 5u8)) != 0
    }

    ///Set presence of `optimize_for`
    #[inline]
    pub fn set_optimize_for(&mut self) -> (r: &mut Self)
        ensures
            r@ == old(self)@.update(5, true),
            *final(self) == *final(r),
    {
        let ghost bytes = self.0@;
        self.0[0] = self.0[0] | (1u8 << 5u8);
        proof {
            lemma_flags_set(bytes, self.0@, 0, 5);
        }
        self
    }

    ///Clear presence of `optimize_for`
    #[inline]
    pub fn clear_optimize_for(&mut self) -> (r: &mut Self)
        ensures
            r@ == old(self)@.update(5, false),
            *final(self) == *final(r),
    {
        let ghost bytes = self.0@;
        self.0[0] = self.0[0] & !(1u8 << 5u8);
        proof {
            lemma_flags_clear(bytes, self.0@, 0, 5);
        }
        self
    }

    ///Builder method that sets the presence of `optimize_for`. Useful for initializing the Hazzer.
    #[inline]
    pub fn init_optimize_for(self) -> (r: Self)
        ensures
            r@ == self@.update(5, true),
    {
        let mut s = self;
        s.set_optimize_for();
        s
    }

    ///Query presence of `go_package`
    #[inline]
    pub fn go_package(&self) -> (r: bool)
        ensures
            r == self@[6],
    {
        proof {
            lemma_flags_get(self.0@, 0, 6);
        }
        (self.0[0] & (1u8 << 6u8)) != 0
    }

    ///Set presence of `go_package`
    #[inline]
    pub fn set_go_package(&mut self) -> (r: &mut Self)
        ensures
            r@ == old(self)@.update(6, true),
            *final(self) == *final(r),
    {
        let ghost bytes = self.0@;
        self.0[0] = self.0[0] | (1u8 << 6u8);
        proof {
            lemma_flags_set(bytes, self.0@, 0, 6);
        }
        self
    }

    ///Clear presence of `go_package`
    #[inline]
    pub fn clear_go_package(&mut self) -> (r: &mut Self)
        ensures
            r@ == old(self)@.update(6, false),
            *final(self) == *final(r),
    {
        let ghost bytes = self.0@;
        self.0[0] = self.0[0] & !(1u8 << 6u8);
        proof {
            lemma_flags_clear(bytes, self.0@, 0, 6);
        }
        self
    }

    ///Builder method that sets the presence of `go_package`. Useful for initializing the Hazzer.
    #[inline]
    pub fn init_go_package(self) -> (r: Self)
        ensures
            r@ == self@.update(6, true),
    {
        let mut s = self;
        s.set_go_package();
        s
    }

    ///Query presence of `cc_generic_services`
    #[inline]
    pub fn cc_generic_services(&self) -> (r: bool)
        ensures
            r == self@[7],
    {
        proof {
            lemma_flags_get(self.0@, 0, 7);
        }
        (self.0[0] & (1u8 << 7u8)) != 0
    }

    ///Set presence of `cc_generic_services`
    #[inline]
    pub fn set_cc_generic_services(&mut self) -> (r: &mut Self)
        ensures
            r@ == old(self)@.update(7, true),
            *final(self) == *final(r),
    {
        let ghost bytes = self.0@;
        self.0[0] = self.0[0] | (1u8 << 7u8);
        proof {
            lemma_flags_set(bytes, self.0@, 0, 7);
        }
        self
    }

    ///Clear presence of `cc_generic_services`
    #[inline]
    pub fn clear_cc_generic_services(&mut self) -> (r: &mut Self)
        ensures
            r@ == old(self)@.update(7, false),
            *final(self) == *final(r),
    {
        let ghost bytes = self.0@;
        self.0[0] = self.0[0] & !(1u8 << 7u8);
        proof {
            lemma_flags_clear(bytes, self.0@, 0, 7);
        }
        self
    }

    ///Builder method that sets the presence of `cc_generic_services`. Useful for initializing the Hazzer.
    #[inline]
    pub fn init_cc_generic_services(self) -> (r: Self)
        ensures
            r@ == self@.update(7, true),
    {
        let mut s = self;
        s.set_cc_generic_services();
        s
    }

    ///Query presence of `java_generic_services`
    #[inline]
    pub fn java_generic_services(&self) -> (r: bool)
        ensures
            r == self@[8],
    {
        proof {
            lemma_flags_get(self.0@, 1, 0);
        }
        (self.0[1] & (1u8 << 0u8)) != 0
    }

    ///Set presence of `java_generic_services`
    #[inline]
    pub fn set_java_generic_services(&mut self) -> (r: &mut Self)
        ensures
            r@ == old(self)@.update(8, true),
            *final(self) == *final(r),
    {
        let ghost bytes = self.0@;
        self.0[1] = self.0[1] | (1u8 << 0u8);
        proof {
            lemma_flags_set(bytes, self.0@, 1, 0);
        }
        self
    }

    ///Clear presence of `java_generic_services`
    #[inline]
    pub fn clear_java_generic_services(&mut self) -> (r: &mut Self)
        ensures
            r@ == old(self)@.update(8, false),
            *final(self) == *final(r),
    {
        let ghost bytes = self.0@;
        self.0[1] = self.0[1] & !(1u8 << 0u8);
        proof {
            lemma_flags_clear(bytes, self.0@, 1, 0);
        }
        self
    }

    ///Builder method that sets the presence of `java_generic_services`. Useful for initializing the Hazzer.
    #[inline]
    pub fn init_java_generic_services(self) -> (r: Self)
        ensures
            r@ == self@.update(8, true),
    {
        let mut s = self;
        s.set_java_generic_services();
        s
    }

    ///Query presence of `py_generic_services`
    #[inline]
    pub fn py_generic_services(&self) -> (r: bool)
        ensures
            r == self@[9],
    {
        proof {
            lemma_flags_get(self.0@, 1, 1);
        }
        (self.0[1] & (1u8 << 1u8)) != 0
    }

    ///Set presence of `py_generic_services`
    #[inline]
    pub fn set_py_generic_services(&mut self) -> (r: &mut Self)
        ensures
            r@ == old(self)@.update(9, true),
            *final(self) == *final(r),
    {
        let ghost bytes = self.0@;
        self.0[1] = self.0[1] | (1u8 << 1u8);
        proof {
            lemma_flags_set(bytes, self.0@, 1, 1);
        }
        self
    }

    ///Clear presence of `py_generic_services`
    #[inline]
    pub fn clear_py_generic_services(&mut self) -> (r: &mut Self)
        ensures
            r@ == old(self)@.update(9, false),
            *final(self) == *final(r),
    {
        let ghost bytes = self.0@;
        self.0[1] = self.0[1] & !(1u8 << 1u8);
        proof {
            lemma_flags_clear(bytes, self.0@, 1, 1);
        }
        self
    }

    ///Builder method that sets the presence of `py_generic_services`. Useful for initializing the Hazzer.
    #[inline]
    pub fn init_py_generic_services(self) -> (r: Self)
        ensures
            r@ == self@.update(9, true),
    {
        let mut s = self;
        s.set_py_generic_services();
        s
    }

    ///Query presence of `deprecated`
    #[inline]
    pub fn deprecated(&self) -> (r: bool)
        ensures
            r == self@[10],
    {
        proof {
            lemma_flags_get(self.0@, 1, 2);
        }
        (self.0[1] & (1u8 << 2u8)) != 0
    }

    ///Set presence of `deprecated`
    #[inline]
    pub fn set_deprecated(&mut self) -> (r: &mut Self)
        ensures
            r@ == old(self)@.update(10, true),
            *final(self) == *final(r),
    {
        let ghost bytes = self.0@;
        self.0[1] = self.0[1] | (1u8 << 2u8);
        proof {
            lemma_flags_set(bytes, self.0@, 1, 2);
        }
        self
    }

    ///Clear presence of `deprecated`
    #[inline]
    pub fn clear_deprecated(&mut self) -> (r: &mut Self)
        ensures
            r@ == old(self)@.update(10, false),
            *final(self) == *final(r),
    {
        let ghost bytes = self.0@;
        self.0[1] = self.0[1] & !(1u8 << 2u8);
        proof {
            lemma_flags_clear(bytes, self.0@, 1, 2);
        }
        self
    }

    ///Builder method that sets the presence of `deprecated`. Useful for initializing the Hazzer.
    #[inline]
    pub fn init_deprecated(self) -> (r: Self)
        ensures
            r@ == self@.update(10, true),
    {
        let mut s = self;
        s.set_deprecated();
        s
    }

    ///Query presence of `cc_enable_arenas`
    #[inline]
    pub fn cc_enable_arenas(&self) -> (r: bool)
        ensures
            r == self@[11],
    {
        proof {
            lemma_flags_get(self.0@, 1, 3);
        }
        (self.0[1] & (1u8 << 3u8)) != 0
    }

    ///Set presence of `cc_enable_arenas`
    #[inline]
    pub fn set_cc_enable_arenas(&mut self) -> (r: &mut Self)
        ensures
            r@ == old(self)@.update(11, true),
            *final(self) == *final(r),
    {
        let ghost bytes = self.0@;
        self.0[1] = self.0[1] | (1u8 << 3u8);
        proof {
            lemma_flags_set(bytes, self.0@, 1, 3);
        }
        self
    }

    ///Clear presence of `cc_enable_arenas`
    #[inline]
    pub fn clear_cc_enable_arenas(&mut self) -> (r: &mut Self)
        ensures
            r@ == old(self)@.update(11, false),
            *final(self) == *final(r),
    {
        let ghost bytes = self.0@;
        self.0[1] = self.0[1] & !(1u8 << 3u8);
        proof {
            lemma_flags_clear(bytes, self.0@, 1, 3);
        }
        self
    }

    ///Builder method that sets the presence of `cc_enable_arenas`. Useful for initializing the Hazzer.
    #[inline]
    pub fn init_cc_enable_arenas(self) -> (r: Self)
        ensures
            r@ == self@.update(11, true),
    {
        let mut s = self;
        s.set_cc_enable_arenas();
        s
    }

    ///Query presence of `objc_class_prefix`
    #[inline]
    pub fn objc_class_prefix(&self) -> (r: bool)
        ensures
            r == self@[12],
    {
        proof {
            lemma_flags_get(self.0@, 1, 4);
        }
        (self.0[1] & (1u8 << 4u8)) != 0
    }

    ///Set presence of `objc_class_prefix`
    #[inline]
    pub fn set_objc_class_prefix(&mut self) -> (r: &mut Self)
        ensures
            r@ == old(self)@.update(12, true),
            *final(self) == *final(r),
    {
        let ghost bytes = self.0@;
        self.0[1] = self.0[1] | (1u8 << 4u8);
        proof {
            lemma_flags_set(bytes, self.0@, 1, 4);
        }
        self
    }

    ///Clear presence of `objc_class_prefix`
    #[inline]
    pub fn clear_objc_class_prefix(&mut self) -> (r: &mut Self)
        ensures
            r@ == old(self)@.update(12, false),
            *final(self) == *final(r),
    {
        let ghost bytes = self.0@;
        self.0[1] = self.0[1] & !(1u8 << 4u8);
        proof {
            lemma_flags_clear(bytes, self.0@, 1, 4);
        }
        self
    }

    ///Builder method that sets the presence of `objc_class_prefix`. Useful for initializing the Hazzer.
    #[inline]
    pub fn init_objc_class_prefix(self) -> (r: Self)
        ensures
            r@ == self@.update(12, true),
    {
        let mut s = self;
        s.set_objc_class_prefix();
        s
    }

    ///Query presence of `csharp_namespace`
    #[inline]
    pub fn csharp_namespace(&self) -> (r: bool)
        ensures
            r == self@[13],
    {
        proof {
            lemma_flags_get(self.0@, 1, 5);
        }
        (self.0[1] & (1u8 << 5u8)) != 0
    }

    ///Set presence of `csharp_namespace`
    #[inline]
    pub fn set_csharp_namespace(&mut self) -> (r: &mut Self)
        ensures
            r@ == old(self)@.update(13, true),
            *final(self) == *final(r),
    {
        let ghost bytes = self.0@;
        self.0[1] = self.0[1] | (1u8 << 5u8);
        proof {
            lemma_flags_set(bytes, self.0@, 1, 5);
        }
        self
    }

    ///Clear presence of `csharp_namespace`
    #[inline]
    pub fn clear_csharp_namespace(&mut self) -> (r: &mut Self)
        ensures
            r@ == old(self)@.update(13, false),
            *final(self) == *final(r),
    {
        let ghost bytes = self.0@;
        self.0[1] = self.0[1] & !(1u8 << 5u8);
        proof {
            lemma_flags_clear(bytes, self.0@, 1, 5);
        }
        self
    }

    ///Builder method that sets the presence of `csharp_namespace`. Useful for initializing the Hazzer.
    #[inline]
    pub fn init_csharp_namespace(self) -> (r: Self)
        ensures
            r@ == self@.update(13, true),
    {
        let mut s = self;
        s.set_csharp_namespace();
        s
    }

    ///Query presence of `swift_prefix`
    #[inline]
    pub fn swift_prefix(&self) -> (r: bool)
        ensures
            r == self@[14],
    {
        proof {
            lemma_flags_get(self.0@, 1, 6);
        }
        (self.0[1] & (1u8 << 6u8)) != 0
    }

    ///Set presence of `swift_prefix`
    #[inline]
    pub fn set_swift_prefix(&mut self) -> (r: &mut Self)
        ensures
            r@ == old(self)@.update(14, true),
            *final(self) == *final(r),
    {
        let ghost bytes = self.0@;
        self.0[1] = self.0[1] | (1u8 << 6u8);
        proof {
            lemma_flags_set(bytes, self.0@, 1, 6);
        }
        self
    }

    ///Clear presence of `swift_prefix`
    #[inline]
    pub fn clear_swift_prefix(&mut self) -> (r: &mut Self)
        ensures
            r@ == old(self)@.update(14, false),
            *final(self) == *final(r),
    {
        let ghost bytes = self.0@;
        self.0[1] = self.0[1] & !(1u8 << 6u8);
        proof {
            lemma_flags_clear(bytes, self.0@, 1, 6);
        }
        self
    }

    ///Builder method that sets the presence of `swift_prefix`. Useful for initializing the Hazzer.
    #[inline]
    pub fn init_swift_prefix(self) -> (r: Self)
        ensures
            r@ == self@.update(14, true),
    {
        let mut s = self;
        s.set_swift_prefix();
        s
    }

    ///Query presence of `php_class_prefix`
    #[inline]
    pub fn php_class_prefix(&self) -> (r: bool)
        ensures
            r == self@[15],
    {
        proof {
            lemma_flags_get(self.0@, 1, 7);
        }
        (self.0[1] & (1u8 << 7u8)) != 0
    }

    ///Set presence of `php_class_prefix`
    #[inline]
    pub fn set_php_class_prefix(&mut self) -> (r: &mut Self)
        ensures
            r@ == old(self)@.update(15, true),
            *final(self) == *final(r),
    {
        let ghost bytes = self.0@;
        self.0[1] = self.0[1] | (1u8 << 7u8);
        proof {
            lemma_flags_set(bytes, self.0@, 1, 7);
        }
        self
    }

    ///Clear presence of `php_class_prefix`
    #[inline]
    pub fn clear_php_class_prefix(&mut self) -> (r: &mut Self)
        ensures
            r@ == old(self)@.update(15, false),
            *final(self) == *final(r),
    {
        let ghost bytes = self.0@;
        self.0[1] = self.0[1] & !(1u8 << 7u8);
        proof {
            lemma_flags_clear(bytes, self.0@, 1, 7);
        }
        self
    }

    ///Builder method that sets the presence of `php_class_prefix`. Useful for initializing the Hazzer.
    #[inline]
    pub fn init_php_class_prefix(self) -> (r: Self)
        ensures
            r@ == self@.update(15, true),
    {
        let mut s = self;
        s.set_php_class_prefix();
        s
    }

    ///Query presence of `php_namespace`
    #[inline]
    pub fn php_namespace(&self) -> (r: bool)
        ensures
            r == self@[16],
    {
        proof {
            lemma_flags_get(self.0@, 2, 0);
        }
        (self.0[2] & (1u8 << 0u8)) != 0
    }

    ///Set presence of `php_namespace`
    #[inline]
    pub fn set_php_namespace(&mut self) -> (r: &mut Self)
        ensures
            r@ == old(self)@.update(16, true),
            *final(self) == *final(r),
    {
        let ghost bytes = self.0@;
        self.0[2] = self.0[2] | (1u8 << 0u8);
        proof {
            lemma_flags_set(bytes, self.0@, 2, 0);
        }
        self
    }

    ///Clear presence of `php_namespace`
    #[inline]
    pub fn clear_php_namespace(&mut self) -> (r: &mut Self)
        ensures
            r@ == old(self)@.update(16, false),
            *final(self) == *final(r),
    {
        let ghost bytes = self.0@;
        self.0[2] = self.0[2] & !(1u8 << 0u8);
        proof {
            lemma_flags_clear(bytes, self.0@, 2, 0);
        }
        self
    }

    ///Builder method that sets the presence of `php_namespace`. Useful for initializing the Hazzer.
    #[inline]
    pub fn init_php_namespace(self) -> (r: Self)
        ensures
            r@ == self@.update(16, true),
    {
        let mut s = self;
        s.set_php_namespace();
        s
    }

    ///Query presence of `php_metadata_namespace`
    #[inline]
    pub fn php_metadata_namespace(&self) -> (r: bool)
        ensures
            r == self@[17],
    {
        proof {
            lemma_flags_get(self.0@, 2, 1);
        }
        (self.0[2] & (1u8 << 1u8)) != 0
    }

    ///Set presence of `php_metadata_namespace`
    #[inline]
    pub fn set_php_metadata_namespace(&mut self) -> (r: &mut Self)
        ensures
            r@ == old(self)@.update(17, true),
            *final(self) == *final(r),
    {
        let ghost bytes = self.0@;
        self.0[2] = self.0[2] | (1u8 << 1u8);
        proof {
            lemma_flags_set(bytes, self.0@, 2, 1);
        }
        self
    }

    ///Clear presence of `php_metadata_namespace`
    #[inline]
    pub fn clear_php_metadata_namespace(&mut self) -> (r: &mut Self)
        ensures
            r@ == old(self)@.update(17, false),
            *final(self) == *final(r),
    {
        let ghost bytes = self.0@;
        self.0[2] = self.0[2] & !(1u8 << 1u8);
        proof {
            lemma_flags_clear(bytes, self.0@, 2, 1);
        }
        self
    }

    ///Builder method that sets the presence of `php_metadata_namespace`. Useful for initializing the Hazzer.
    #[inline]
    pub fn init_php_metadata_namespace(self) -> (r: Self)
        ensures
            r@ == self@.update(17, true),
    {
        let mut s = self;
        s.set_php_metadata_namespace();
        s
    }

    ///Query presence of `ruby_package`
    #[inline]
    pub fn ruby_package(&self) -> (r: bool)
        ensures
            r == self@[18],
    {
        proof {
            lemma_flags_get(self.0@, 2, 2);
        }
        (self.0[2] & (1u8 << 2u8)) != 0
    }

    ///Set presence of `ruby_package`
    #[inline]
    pub fn set_ruby_package(&mut self) -> (r: &mut Self)
        ensures
            r@ == old(self)@.update(18, true),
            *final(self) == *final(r),
    {
        let ghost bytes = self.0@;
        self.0[2] = self.0[2] | (1u8 << 2u8);
        proof {
            lemma_flags_set(bytes, self.0@, 2, 2);
        }
        self
    }

    ///Clear presence of `ruby_package`
    #[inline]
    pub fn clear_ruby_package(&mut self) -> (r: &mut Self)
        ensures
            r@ == old(self)@.update(18, false),
            *final(self) == *final(r),
    {
        let ghost bytes = self.0@;
        self.0[2] = self.0[2] & !(1u8 << 2u8);
        proof {
            lemma_flags_clear(bytes, self.0@, 2, 2);
        }
        self
    }

    ///Builder method that sets the presence of `ruby_package`. Useful for initializing the Hazzer.
    #[inline]
    pub fn init_ruby_package(self) -> (r: Self)
        ensures
            r@ == self@.update(18, true),
    {
        let mut s = self;
        s.set_ruby_package();
        s
    }

    ///Query presence of `features`
    #[inline]
    pub fn features(&self) -> (r: bool)
        ensures
            r == self@[19],
    {
        proof {
            lemma_flags_get(self.0@, 2, 3);
        }
        (self.0[2] & (1u8 << 3u8)) != 0
    }

    ///Set presence of `features`
    #[inline]
    pub fn set_features(&mut self) -> (r: &mut Self)
        ensures
            r@ == old(self)@.update(19, true),
            *final(self) == *final(r),
    {
        let ghost bytes = self.0@;
        self.0[2] = self.0[2] | (1u8 << 3u8);
        proof {
            lemma_flags_set(bytes, self.0@, 2, 3);
        }
        self
    }

    ///Clear presence of `features`
    #[inline]
    pub fn clear_features(&mut self) -> (r: &mut Self)
        ensures
            r@ == old(self)@.update(19, false),
            *final(self) == *final(r),
    {
        let ghost bytes = self.0@;
        self.0[2] = self.0[2] & !(1u8 << 3u8);
        proof {
            lemma_flags_clear(bytes, self.0@, 2, 3);
        }
        self
    }

    ///Builder method that sets the presence of `features`. Useful for initializing the Hazzer.
    #[inline]
    pub fn init_features(self) -> (r: Self)
        ensures
            r@ == self@.update(19, true),
    {
        let mut s = self;
        s.set_features();
        s
    }
}

/// The Protobuf message `google.protobuf.FileOptions`.
#[derive(Debug)]
pub struct FileOptions {
    pub java_package: String,
    pub java_outer_classname: String,
    pub java_multiple_files: bool,
    pub java_generate_equals_and_hash: bool,
    pub java_string_check_utf8: bool,
    pub optimize_for: pb::FileOptions_::OptimizeMode,
    pub go_package: String,
    pub cc_generic_services: bool,
    pub java_generic_services: bool,
    pub py_generic_services: bool,
    pub deprecated: bool,
    pub cc_enable_arenas: bool,
    pub objc_class_prefix: String,
    pub csharp_namespace: String,
    pub swift_prefix: String,
    pub php_class_prefix: String,
    pub php_namespace: String,
    pub php_metadata_namespace: String,
    pub ruby_package: String,
    pub features: pb::FeatureSet_::FeatureSet,
    pub uninterpreted_option: Vec<pb::UninterpretedOption_::UninterpretedOption>,
    pub _has: _Hazzer,
}

/// The value of a `FileOptions` as the contracts see it.
#[verifier::ext_equal]
pub ghost struct FileOptionsModel {
    pub java_package: Seq<char>,
    pub java_outer_classname: Seq<char>,
    pub java_multiple_files: bool,
    pub java_generate_equals_and_hash: bool,
    pub java_string_check_utf8: bool,
    pub optimize_for: pb::FileOptions_::OptimizeMode,
    pub go_package: Seq<char>,
    pub cc_generic_services: bool,
    pub java_generic_services: bool,
    pub py_generic_services: bool,
    pub deprecated: bool,
    pub cc_enable_arenas: bool,
    pub objc_class_prefix: Seq<char>,
    pub csharp_namespace: Seq<char>,
    pub swift_prefix: Seq<char>,
    pub php_class_prefix: Seq<char>,
    pub php_namespace: Seq<char>,
    pub php_metadata_namespace: Seq<char>,
    pub ruby_package: Seq<char>,
    pub features: pb::FeatureSet_::FeatureSetModel,
    pub uninterpreted_option: Seq<pb::UninterpretedOption_::UninterpretedOptionModel>,
    pub _has: Seq<bool>,
}

impl View for FileOptions {
    type V = FileOptionsModel;

    open spec fn view(&self) -> FileOptionsModel {
        FileOptionsModel {
            java_package: self.java_package@,
            java_outer_classname: self.java_outer_classname@,
            java_multiple_files: self.java_multiple_files,
            java_generate_equals_and_hash: self.java_generate_equals_and_hash,
            java_string_check_utf8: self.java_string_check_utf8,
            optimize_for: self.optimize_for,
            go_package: self.go_package@,
            cc_generic_services: self.cc_generic_services,
            java_generic_services: self.java_generic_services,
            py_generic_services: self.py_generic_services,
            deprecated: self.deprecated,
            cc_enable_arenas: self.cc_enable_arenas,
            objc_class_prefix: self.objc_class_prefix@,
            csharp_namespace: self.csharp_namespace@,
            swift_prefix: self.swift_prefix@,
            php_class_prefix: self.php_class_prefix@,
            php_namespace: self.php_namespace@,
            php_metadata_namespace: self.php_metadata_namespace@,
            ruby_package: self.ruby_package@,
            features: self.features@,
            uninterpreted_option: self.uninterpreted_option@.map_values(|m: pb::UninterpretedOption_::UninterpretedOption| m@),
            _has: self._has@,
        }
    }
}

impl FileOptionsModel {
    /// The value of a `FileOptions` with no field set.
    pub open spec fn empty() -> FileOptionsModel {
        FileOptionsModel {
            java_package: Seq::empty(),
            java_outer_classname: Seq::empty(),
            java_multiple_files: false,
            java_generate_equals_and_hash: false,
            java_string_check_utf8: false,
            optimize_for: pb::FileOptions_::OptimizeMode(0),
            go_package: Seq::empty(),
            cc_generic_services: false,
            java_generic_services: false,
            py_generic_services: false,
            deprecated: false,
            cc_enable_arenas: false,
            objc_class_prefix: Seq::empty(),
            csharp_namespace: Seq::empty(),
            swift_prefix: Seq::empty(),
            php_class_prefix: Seq::empty(),
            php_namespace: Seq::empty(),
            php_metadata_namespace: Seq::empty(),
            ruby_package: Seq::empty(),
            features: pb::FeatureSet_::FeatureSetModel::empty(),
            uninterpreted_option: Seq::empty(),
            _has: Seq::new(24, |i: int| false),
        }
    }

    /// The message after the value of the field numbered `num`, with wire type `wt`, at the
    /// start of `s` has been merged into it, and the length of that value. A known field is
    /// read as its own type: a later value of a singular field replaces the earlier one, and
    /// a repeated field gains the values at its end. An unknown field is skipped by its wire
    /// type and leaves the message as it was.
    #[verifier::opaque]
    pub open spec fn merge_field(self, num: u32, wt: u32, s: Seq<u8>) -> Result<(FileOptionsModel, nat), DecodeError>
    {
        if num == 1 {
            match parse_len(s) {
                Ok((p, n)) => match parse_string(p) {
                    Ok(t) => Ok(((FileOptionsModel { java_package: t, _has: self._has.update(0, true), ..self }), n)),
                    Err(e) => Err(e),
                },
                Err(e) => Err(e),
            }
        } else if num == 8 {
            match parse_len(s) {
                Ok((p, n)) => match parse_string(p) {
                    Ok(t) => Ok(((FileOptionsModel { java_outer_classname: t, _has: self._has.update(1, true), ..self }), n)),
                    Err(e) => Err(e),
                },
                Err(e) => Err(e),
            }
        } else if num == 10 {
            match parse_varint(s) {
                Ok((v, n)) => Ok(((FileOptionsModel { java_multiple_files: v != 0, _has: self._has.update(2, true), ..self }), n)),
                Err(e) => Err(e),
            }
        } else if num == 20 {
            match parse_varint(s) {
                Ok((v, n)) => Ok(((FileOptionsModel { java_generate_equals_and_hash: v != 0, _has: self._has.update(3, true), ..self }), n)),
                Err(e) => Err(e),
            }
        } else if num == 27 {
            match parse_varint(s) {
                Ok((v, n)) => Ok(((FileOptionsModel { java_string_check_utf8: v != 0, _has: self._has.update(4, true), ..self }), n)),
                Err(e) => Err(e),
            }
        } else if num == 9 {
            match parse_varint(s) {
                Ok((v, n)) => Ok(((FileOptionsModel { optimize_for: pb::FileOptions_::OptimizeMode(varint_as_i32(v)), _has: self._has.update(5, true), ..self }), n)),
                Err(e) => Err(e),
            }
        } else if num == 11 {
            match parse_len(s) {
                Ok((p, n)) => match parse_string(p) {
                    Ok(t) => Ok(((FileOptionsModel { go_package: t, _has: self._has.update(6, true), ..self }), n)),
                    Err(e) => Err(e),
                },
                Err(e) => Err(e),
            }
        } else if num == 16 {
            match parse_varint(s) {
                Ok((v, n)) => Ok(((FileOptionsModel { cc_generic_services: v != 0, _has: self._has.update(7, true), ..self }), n)),
                Err(e) => Err(e),
            }
        } else if num == 17 {
            match parse_varint(s) {
                Ok((v, n)) => Ok(((FileOptionsModel { java_generic_services: v != 0, _has: self._has.update(8, true), ..self }), n)),
                Err(e) => Err(e),
            }
        } else if num == 18 {
            match parse_varint(s) {
                Ok((v, n)) => Ok(((FileOptionsModel { py_generic_services: v != 0, _has: self._has.update(9, true), ..self }), n)),
                Err(e) => Err(e),
            }
        } else if num == 23 {
            match parse_varint(s) {
                Ok((v, n)) => Ok(((FileOptionsModel { deprecated: v != 0, _has: self._has.update(10, true), ..self }), n)),
                Err(e) => Err(e),
            }
        } else if num == 31 {
            match parse_varint(s) {
                Ok((v, n)) => Ok(((FileOptionsModel { cc_enable_arenas: v != 0, _has: self._has.update(11, true), ..self }), n)),
                Err(e) => Err(e),
            }
        } else if num == 36 {
            match parse_len(s) {
                Ok((p, n)) => match parse_string(p) {
                    Ok(t) => Ok(((FileOptionsModel { objc_class_prefix: t, _has: self._has.update(12, true), ..self }), n)),
                    Err(e) => Err(e),
                },
                Err(e) => Err(e),
            }
        } else if num == 37 {
            match parse_len(s) {
                Ok((p, n)) => match parse_string(p) {
                    Ok(t) => Ok(((FileOptionsModel { csharp_namespace: t, _has: self._has.update(13, true), ..self }), n)),
                    Err(e) => Err(e),
                },
                Err(e) => Err(e),
            }
        } else if num == 39 {
            match parse_len(s) {
                Ok((p, n)) => match parse_string(p) {
                    Ok(t) => Ok(((FileOptionsModel { swift_prefix: t, _has: self._has.update(14, true), ..self }), n)),
                    Err(e) => Err(e),
                },
                Err(e) => Err(e),
            }
        } else if num == 40 {
            match parse_len(s) {
                Ok((p, n)) => match parse_string(p) {
                    Ok(t) => Ok(((FileOptionsModel { php_class_prefix: t, _has: self._has.update(15, true), ..self }), n)),
                    Err(e) => Err(e),
                },
                Err(e) => Err(e),
            }
        } else if num == 41 {
            match parse_len(s) {
                Ok((p, n)) => match parse_string(p) {
                    Ok(t) => Ok(((FileOptionsModel { php_namespace: t, _has: self._has.update(16, true), ..self }), n)),
                    Err(e) => Err(e),
                },
                Err(e) => Err(e),
            }
        } else if num == 44 {
            match parse_len(s) {
                Ok((p, n)) => match parse_string(p) {
                    Ok(t) => Ok(((FileOptionsModel { php_metadata_namespace: t, _has: self._has.update(17, true), ..self }), n)),
                    Err(e) => Err(e),
                },
                Err(e) => Err(e),
            }
        } else if num == 45 {
            match parse_len(s) {
                Ok((p, n)) => match parse_string(p) {
                    Ok(t) => Ok(((FileOptionsModel { ruby_package: t, _has: self._has.update(18, true), ..self }), n)),
                    Err(e) => Err(e),
                },
                Err(e) => Err(e),
            }
        } else if num == 50 {
            match parse_varint(s) {
                Ok((l, m)) => if 0 < m <= s.len() {
                    match self.features.decode_stream(s.subrange(m as int, s.len() as int), l as int) {
                        Ok((x, c)) => Ok(((FileOptionsModel { features: x, _has: self._has.update(19, true), ..self }), m + c)),
                        Err(e) => Err(e),
                    }
                } else {
                    Err(DecodeError::UnexpectedEof)
                },
                Err(e) => Err(e),
            }
        } else if num == 999 {
            match parse_varint(s) {
                Ok((l, m)) => if 0 < m <= s.len() {
                    match pb::UninterpretedOption_::UninterpretedOptionModel::empty().decode_stream(s.subrange(m as int, s.len() as int), l as int) {
                        Ok((x, c)) => Ok(((FileOptionsModel { uninterpreted_option: self.uninterpreted_option.push(x), ..self }), m + c)),
                        Err(e) => Err(e),
                    }
                } else {
                    Err(DecodeError::UnexpectedEof)
                },
                Err(e) => Err(e),
            }
        } else {
            match skip_len(s, wt) {
                Ok(n) => Ok((self, n)),
                Err(e) => Err(e),
            }
        }
    }

    /// The message after its fields have been read from the start of `s` while fewer than
    /// `rem` bytes have been read, and how many bytes were read. Each field is read whole,
    /// so the last one may run past `rem`. A field numbered 0 is refused.
    pub open spec fn decode_stream(self, s: Seq<u8>, rem: int) -> Result<(FileOptionsModel, nat), DecodeError>
        decreases s.len(),
    {
        if rem <= 0 {
            Ok((self, 0))
        } else {
            match parse_tag(s) {
                Err(e) => Err(e),
                Ok((num, wt, n)) => if num == 0 {
                    Err(DecodeError::ZeroField)
                } else if 0 < n <= s.len() {
                    let rest = s.subrange(n as int, s.len() as int);
                    match self.merge_field(num, wt, rest) {
                        Ok((m, k)) => if k <= rest.len() {
                            shift_consumed(
                                m.decode_stream(rest.subrange(k as int, rest.len() as int), rem - (n + k)),
                                n + k,
                            )
                        } else {
                            Err(DecodeError::UnexpectedEof)
                        },
                        Err(e) => Err(e),
                    }
                } else {
                    Err(DecodeError::UnexpectedEof)
                },
            }
        }
    }

    /// The message after every field in `s` has been merged into it, in order: its fields
    /// read from `s` while fewer than `s.len()` bytes have been read.
    pub open spec fn merge_from(self, s: Seq<u8>) -> Result<FileOptionsModel, DecodeError> {
        match self.decode_stream(s, s.len() as int) {
            Ok((m, c)) => Ok(m),
            Err(e) => Err(e),
        }
    }

    /// The message as a failed merge of the field numbered `num`, with wire type `wt`, at
    /// the start of `s` leaves it: a nested message keeps what was read into it before
    /// its own failure, and nothing else changes.
    pub open spec fn merge_field_partial(self, num: u32, wt: u32, s: Seq<u8>) -> FileOptionsModel {
        if num == 50 {
            match parse_varint(s) {
                Ok((l, m)) => if 0 < m <= s.len() {
                    FileOptionsModel { features: self.features.until_error_stream(s.subrange(m as int, s.len() as int), l as int), ..self }
                } else {
                    self
                },
                Err(e) => self,
            }
        } else {
            self
        }
    }

    /// The message after its fields have been read from the start of `s`, as in
    /// `decode_stream`, up to the first one that fails: that one leaves the message as its
    /// failed merge does, and no field after it is read.
    pub open spec fn until_error_stream(self, s: Seq<u8>, rem: int) -> FileOptionsModel
        decreases s.len(),
    {
        if rem <= 0 {
            self
        } else {
            match parse_tag(s) {
                Err(e) => self,
                Ok((num, wt, n)) => if num == 0 {
                    self
                } else if 0 < n <= s.len() {
                    let rest = s.subrange(n as int, s.len() as int);
                    match self.merge_field(num, wt, rest) {
                        Ok((m, k)) => if k <= rest.len() {
                            m.until_error_stream(rest.subrange(k as int, rest.len() as int), rem - (n + k))
                        } else {
                            m
                        },
                        Err(e) => self.merge_field_partial(num, wt, rest),
                    }
                } else {
                    self
                },
            }
        }
    }

    /// The message after the fields of `s` have been merged into it in order, up to the
    /// first one that fails, which leaves the message as its failed merge does. When none
    /// fails, this is what `merge_from` gives.
    pub open spec fn merge_until_error(self, s: Seq<u8>) -> FileOptionsModel {
        self.until_error_stream(s, s.len() as int)
    }

    /// Reading fields reads at most the whole input, and at least `rem` bytes when `rem` is
    /// positive.
    pub proof fn lemma_stream_bounds(self, s: Seq<u8>, rem: int)
        ensures
            self.decode_stream(s, rem) matches Ok((m, c)) ==> c <= s.len() && (rem > 0 ==> c >= rem) && (
            rem <= 0 ==> c == 0),
        decreases s.len(),
    {
        if rem > 0 {
            if let Ok((num, wt, n)) = parse_tag(s) {
                if num != 0 && 0 < n <= s.len() {
                    let rest = s.subrange(n as int, s.len() as int);
                    if let Ok((m, k)) = self.merge_field(num, wt, rest) {
                        if k <= rest.len() {
                            m.lemma_stream_bounds(rest.subrange(k as int, rest.len() as int), rem - (n + k));
                        }
                    }
                }
            }
        }
    }

    /// Fields that can be read from `s` read the same from `s` followed by anything.
    pub proof fn lemma_stream_prefix(self, s: Seq<u8>, b: Seq<u8>, rem: int)
        requires
            self.decode_stream(s, rem) is Ok,
        ensures
            self.decode_stream(s + b, rem) == self.decode_stream(s, rem),
        decreases s.len(),
    {
        if rem > 0 {
            lemma_values_prefix(s, b);
            let (num, wt, n) = parse_tag(s)->Ok_0;
            let rest = s.subrange(n as int, s.len() as int);
            assert((s + b).subrange(n as int, (s + b).len() as int) =~= rest + b);
            self.lemma_merge_field_prefix(num, wt, rest, b);
            let (m, k) = self.merge_field(num, wt, rest)->Ok_0;
            let t = rest.subrange(k as int, rest.len() as int);
            assert((rest + b).subrange(k as int, (rest + b).len() as int) =~= t + b);
            m.lemma_stream_prefix(t, b, rem - (n + k));
        }
    }

    proof fn lemma_merge_field_prefix(self, num: u32, wt: u32, s: Seq<u8>, b: Seq<u8>)
        requires
            self.merge_field(num, wt, s) is Ok,
        ensures
            self.merge_field(num, wt, s + b) == self.merge_field(num, wt, s),
        
    {
        reveal(FileOptionsModel::merge_field);
        lemma_values_prefix(s, b);
        lemma_len_bounds(s);
        if num == 50 {
            match parse_varint(s) {
                Ok((l, m)) => if 0 < m <= s.len() {
                    let t = s.subrange(m as int, s.len() as int);
                    assert((s + b).subrange(m as int, (s + b).len() as int) =~= t + b);
                    if self.features.decode_stream(t, l as int) is Ok {
                        self.features.lemma_stream_prefix(t, b, l as int);
                    }
                },
                Err(e) => {},
            }
        }
        if num == 999 {
            match parse_varint(s) {
                Ok((l, m)) => if 0 < m <= s.len() {
                    let t = s.subrange(m as int, s.len() as int);
                    assert((s + b).subrange(m as int, (s + b).len() as int) =~= t + b);
                    if pb::UninterpretedOption_::UninterpretedOptionModel::empty().decode_stream(t, l as int) is Ok {
                        pb::UninterpretedOption_::UninterpretedOptionModel::empty().lemma_stream_prefix(t, b, l as int);
                    }
                },
                Err(e) => {},
            }
        }
    }

    /// Reading exactly `r1` bytes of fields, then `r2` more, is reading while fewer than
    /// `r1 + r2` bytes have been read.
    proof fn lemma_stream_split(self, s: Seq<u8>, r1: int, r2: int)
        requires
            r1 >= 0,
            r2 >= 0,
            self.decode_stream(s, r1) matches Ok((m, c)) && c == r1,
        ensures
            self.decode_stream(s, r1 + r2) == shift_consumed(
                self.decode_stream(s, r1)->Ok_0.0.decode_stream(s.subrange(r1, s.len() as int), r2),
                r1 as nat,
            ),
        decreases s.len(),
    {
        if r1 > 0 {
            let (num, wt, n) = parse_tag(s)->Ok_0;
            let rest = s.subrange(n as int, s.len() as int);
            let (m, k) = self.merge_field(num, wt, rest)->Ok_0;
            let t = rest.subrange(k as int, rest.len() as int);
            m.lemma_stream_bounds(t, r1 - (n + k));
            assert(t.subrange(r1 - (n + k), t.len() as int) =~= s.subrange(r1, s.len() as int));
            m.lemma_stream_split(t, r1 - (n + k), r2);
        } else {
            assert(s.subrange(0, s.len() as int) =~= s);
        }
    }

    /// Decoding is merging: when the fields of `a` merge into the message without error,
    /// merging `a` followed by `b` gives what merging `b` into that result gives.
    pub proof fn lemma_merge_from_concat(self, a: Seq<u8>, b: Seq<u8>)
        requires
            self.merge_from(a) is Ok,
        ensures
            self.merge_from(a + b) == self.merge_from(a)->Ok_0.merge_from(b),
    {
        self.lemma_stream_bounds(a, a.len() as int);
        self.lemma_stream_prefix(a, b, a.len() as int);
        assert((a + b).len() == a.len() + b.len());
        self.lemma_stream_split(a + b, a.len() as int, b.len() as int);
        assert((a + b).subrange(a.len() as int, (a + b).len() as int) =~= b);
    }

    proof fn lemma_single_field(self, s: Seq<u8>, num: u32, wt: u32, n: nat)
        requires
            parse_tag(s) == Ok::<(u32, u32, nat), DecodeError>((num, wt, n)),
            num != 0,
            self.merge_field(num, wt, s.subrange(n as int, s.len() as int)) matches Ok((m, k)) && n + k == s.len(),
        ensures
            self.merge_from(s) == Ok::<FileOptionsModel, DecodeError>(self.merge_field(num, wt, s.subrange(n as int, s.len() as int))->Ok_0.0),
    {
        lemma_tag_bounds(s);
        let rest = s.subrange(n as int, s.len() as int);
        let (m, k) = self.merge_field(num, wt, rest)->Ok_0;
        assert(rest.subrange(k as int, rest.len() as int) =~= Seq::<u8>::empty());
        assert(m.decode_stream(rest.subrange(k as int, rest.len() as int), s.len() - (n + k)) == Ok::<
            (FileOptionsModel, nat),
            DecodeError,
        >((m, 0)));
    }

    /// A field numbered 1 holds `java_package`: decoding a buffer that holds just such a field,
    /// whatever its wire type, sets `java_package` to the text of its payload, marks it present,
    /// and leaves every other field as it was.
    pub proof fn lemma_decode_java_package(self, s: Seq<u8>, wt: u32, n: nat, p: Seq<u8>, k: nat)
        requires
            parse_tag(s) == Ok::<(u32, u32, nat), DecodeError>((1, wt, n)),
            parse_len(s.subrange(n as int, s.len() as int)) == Ok::<(Seq<u8>, nat), DecodeError>((p, k)),
            n + k == s.len(),
            valid_utf8(p),
        ensures
            self.merge_from(s) == Ok::<FileOptionsModel, DecodeError>((FileOptionsModel { java_package: decode_utf8(p), _has: self._has.update(0, true), ..self })),
    {
        reveal(FileOptionsModel::merge_field);
        self.lemma_single_field(s, 1, wt, n);
    }

    /// A field numbered 8 holds `java_outer_classname`: decoding a buffer that holds just such a field,
    /// whatever its wire type, sets `java_outer_classname` to the text of its payload, marks it present,
    /// and leaves every other field as it was.
    pub proof fn lemma_decode_java_outer_classname(self, s: Seq<u8>, wt: u32, n: nat, p: Seq<u8>, k: nat)
        requires
            parse_tag(s) == Ok::<(u32, u32, nat), DecodeError>((8, wt, n)),
            parse_len(s.subrange(n as int, s.len() as int)) == Ok::<(Seq<u8>, nat), DecodeError>((p, k)),
            n + k == s.len(),
            valid_utf8(p),
        ensures
            self.merge_from(s) == Ok::<FileOptionsModel, DecodeError>((FileOptionsModel { java_outer_classname: decode_utf8(p), _has: self._has.update(1, true), ..self })),
    {
        reveal(FileOptionsModel::merge_field);
        self.lemma_single_field(s, 8, wt, n);
    }

    /// A field numbered 10 holds `java_multiple_files`: decoding a buffer that holds just such a field,
    /// whatever its wire type, sets `java_multiple_files` to whether the varint is nonzero, marks it present,
    /// and leaves every other field as it was.
    pub proof fn lemma_decode_java_multiple_files(self, s: Seq<u8>, wt: u32, n: nat, v: u64, k: nat)
        requires
            parse_tag(s) == Ok::<(u32, u32, nat), DecodeError>((10, wt, n)),
            parse_varint(s.subrange(n as int, s.len() as int)) == Ok::<(u64, nat), DecodeError>((v, k)),
            n + k == s.len(),
        ensures
            self.merge_from(s) == Ok::<FileOptionsModel, DecodeError>((FileOptionsModel { java_multiple_files: v != 0, _has: self._has.update(2, true), ..self })),
    {
        reveal(FileOptionsModel::merge_field);
        self.lemma_single_field(s, 10, wt, n);
    }

    /// A field numbered 20 holds `java_generate_equals_and_hash`: decoding a buffer that holds just such a field,
    /// whatever its wire type, sets `java_generate_equals_and_hash` to whether the varint is nonzero, marks it present,
    /// and leaves every other field as it was.
    pub proof fn lemma_decode_java_generate_equals_and_hash(self, s: Seq<u8>, wt: u32, n: nat, v: u64, k: nat)
        requires
            parse_tag(s) == Ok::<(u32, u32, nat), DecodeError>((20, wt, n)),
            parse_varint(s.subrange(n as int, s.len() as int)) == Ok::<(u64, nat), DecodeError>((v, k)),
            n + k == s.len(),
        ensures
            self.merge_from(s) == Ok::<FileOptionsModel, DecodeError>((FileOptionsModel { java_generate_equals_and_hash: v != 0, _has: self._has.update(3, true), ..self })),
    {
        reveal(FileOptionsModel::merge_field);
        self.lemma_single_field(s, 20, wt, n);
    }

    /// A field numbered 27 holds `java_string_check_utf8`: decoding a buffer that holds just such a field,
    /// whatever its wire type, sets `java_string_check_utf8` to whether the varint is nonzero, marks it present,
    /// and leaves every other field as it was.
    pub proof fn lemma_decode_java_string_check_utf8(self, s: Seq<u8>, wt: u32, n: nat, v: u64, k: nat)
        requires
            parse_tag(s) == Ok::<(u32, u32, nat), DecodeError>((27, wt, n)),
            parse_varint(s.subrange(n as int, s.len() as int)) == Ok::<(u64, nat), DecodeError>((v, k)),
            n + k == s.len(),
        ensures
            self.merge_from(s) == Ok::<FileOptionsModel, DecodeError>((FileOptionsModel { java_string_check_utf8: v != 0, _has: self._has.update(4, true), ..self })),
    {
        reveal(FileOptionsModel::merge_field);
        self.lemma_single_field(s, 27, wt, n);
    }

    /// A field numbered 9 holds `optimize_for`: decoding a buffer that holds just such a field,
    /// whatever its wire type, sets `optimize_for` to the low 32 bits of the varint, marks it present,
    /// and leaves every other field as it was.
    pub proof fn lemma_decode_optimize_for(self, s: Seq<u8>, wt: u32, n: nat, v: u64, k: nat)
        requires
            parse_tag(s) == Ok::<(u32, u32, nat), DecodeError>((9, wt, n)),
            parse_varint(s.subrange(n as int, s.len() as int)) == Ok::<(u64, nat), DecodeError>((v, k)),
            n + k == s.len(),
        ensures
            self.merge_from(s) == Ok::<FileOptionsModel, DecodeError>((FileOptionsModel { optimize_for: pb::FileOptions_::OptimizeMode(varint_as_i32(v)), _has: self._has.update(5, true), ..self })),
    {
        reveal(FileOptionsModel::merge_field);
        self.lemma_single_field(s, 9, wt, n);
    }

    /// A field numbered 11 holds `go_package`: decoding a buffer that holds just such a field,
    /// whatever its wire type, sets `go_package` to the text of its payload, marks it present,
    /// and leaves every other field as it was.
    pub proof fn lemma_decode_go_package(self, s: Seq<u8>, wt: u32, n: nat, p: Seq<u8>, k: nat)
        requires
            parse_tag(s) == Ok::<(u32, u32, nat), DecodeError>((11, wt, n)),
            parse_len(s.subrange(n as int, s.len() as int)) == Ok::<(Seq<u8>, nat), DecodeError>((p, k)),
            n + k == s.len(),
            valid_utf8(p),
        ensures
            self.merge_from(s) == Ok::<FileOptionsModel, DecodeError>((FileOptionsModel { go_package: decode_utf8(p), _has: self._has.update(6, true), ..self })),
    {
        reveal(FileOptionsModel::merge_field);
        self.lemma_single_field(s, 11, wt, n);
    }

    /// A field numbered 16 holds `cc_generic_services`: decoding a buffer that holds just such a field,
    /// whatever its wire type, sets `cc_generic_services` to whether the varint is nonzero, marks it present,
    /// and leaves every other field as it was.
    pub proof fn lemma_decode_cc_generic_services(self, s: Seq<u8>, wt: u32, n: nat, v: u64, k: nat)
        requires
            parse_tag(s) == Ok::<(u32, u32, nat), DecodeError>((16, wt, n)),
            parse_varint(s.subrange(n as int, s.len() as int)) == Ok::<(u64, nat), DecodeError>((v, k)),
            n + k == s.len(),
        ensures
            self.merge_from(s) == Ok::<FileOptionsModel, DecodeError>((FileOptionsModel { cc_generic_services: v != 0, _has: self._has.update(7, true), ..self })),
    {
        reveal(FileOptionsModel::merge_field);
        self.lemma_single_field(s, 16, wt, n);
    }

    /// A field numbered 17 holds `java_generic_services`: decoding a buffer that holds just such a field,
    /// whatever its wire type, sets `java_generic_services` to whether the varint is nonzero, marks it present,
    /// and leaves every other field as it was.
    pub proof fn lemma_decode_java_generic_services(self, s: Seq<u8>, wt: u32, n: nat, v: u64, k: nat)
        requires
            parse_tag(s) == Ok::<(u32, u32, nat), DecodeError>((17, wt, n)),
            parse_varint(s.subrange(n as int, s.len() as int)) == Ok::<(u64, nat), DecodeError>((v, k)),
            n + k == s.len(),
        ensures
            self.merge_from(s) == Ok::<FileOptionsModel, DecodeError>((FileOptionsModel { java_generic_services: v != 0, _has: self._has.update(8, true), ..self })),
    {
        reveal(FileOptionsModel::merge_field);
        self.lemma_single_field(s, 17, wt, n);
    }

    /// A field numbered 18 holds `py_generic_services`: decoding a buffer that holds just such a field,
    /// whatever its wire type, sets `py_generic_services` to whether the varint is nonzero, marks it present,
    /// and leaves every other field as it was.
    pub proof fn lemma_decode_py_generic_services(self, s: Seq<u8>, wt: u32, n: nat, v: u64, k: nat)
        requires
            parse_tag(s) == Ok::<(u32, u32, nat), DecodeError>((18, wt, n)),
            parse_varint(s.subrange(n as int, s.len() as int)) == Ok::<(u64, nat), DecodeError>((v, k)),
            n + k == s.len(),
        ensures
            self.merge_from(s) == Ok::<FileOptionsModel, DecodeError>((FileOptionsModel { py_generic_services: v != 0, _has: self._has.update(9, true), ..self })),
    {
        reveal(FileOptionsModel::merge_field);
        self.lemma_single_field(s, 18, wt, n);
    }

    /// A field numbered 23 holds `deprecated`: decoding a buffer that holds just such a field,
    /// whatever its wire type, sets `deprecated` to whether the varint is nonzero, marks it present,
    /// and leaves every other field as it was.
    pub proof fn lemma_decode_deprecated(self, s: Seq<u8>, wt: u32, n: nat, v: u64, k: nat)
        requires
            parse_tag(s) == Ok::<(u32, u32, nat), DecodeError>((23, wt, n)),
            parse_varint(s.subrange(n as int, s.len() as int)) == Ok::<(u64, nat), DecodeError>((v, k)),
            n + k == s.len(),
        ensures
            self.merge_from(s) == Ok::<FileOptionsModel, DecodeError>((FileOptionsModel { deprecated: v != 0, _has: self._has.update(10, true), ..self })),
    {
        reveal(FileOptionsModel::merge_field);
        self.lemma_single_field(s, 23, wt, n);
    }

    /// A field numbered 31 holds `cc_enable_arenas`: decoding a buffer that holds just such a field,
    /// whatever its wire type, sets `cc_enable_arenas` to whether the varint is nonzero, marks it present,
    /// and leaves every other field as it was.
    pub proof fn lemma_decode_cc_enable_arenas(self, s: Seq<u8>, wt: u32, n: nat, v: u64, k: nat)
        requires
            parse_tag(s) == Ok::<(u32, u32, nat), DecodeError>((31, wt, n)),
            parse_varint(s.subrange(n as int, s.len() as int)) == Ok::<(u64, nat), DecodeError>((v, k)),
            n + k == s.len(),
        ensures
            self.merge_from(s) == Ok::<FileOptionsModel, DecodeError>((FileOptionsModel { cc_enable_arenas: v != 0, _has: self._has.update(11, true), ..self })),
    {
        reveal(FileOptionsModel::merge_field);
        self.lemma_single_field(s, 31, wt, n);
    }

    /// A field numbered 36 holds `objc_class_prefix`: decoding a buffer that holds just such a field,
    /// whatever its wire type, sets `objc_class_prefix` to the text of its payload, marks it present,
    /// and leaves every other field as it was.
    pub proof fn lemma_decode_objc_class_prefix(self, s: Seq<u8>, wt: u32, n: nat, p: Seq<u8>, k: nat)
        requires
            parse_tag(s) == Ok::<(u32, u32, nat), DecodeError>((36, wt, n)),
            parse_len(s.subrange(n as int, s.len() as int)) == Ok::<(Seq<u8>, nat), DecodeError>((p, k)),
            n + k == s.len(),
            valid_utf8(p),
        ensures
            self.merge_from(s) == Ok::<FileOptionsModel, DecodeError>((FileOptionsModel { objc_class_prefix: decode_utf8(p), _has: self._has.update(12, true), ..self })),
    {
        reveal(FileOptionsModel::merge_field);
        self.lemma_single_field(s, 36, wt, n);
    }

    /// A field numbered 37 holds `csharp_namespace`: decoding a buffer that holds just such a field,
    /// whatever its wire type, sets `csharp_namespace` to the text of its payload, marks it present,
    /// and leaves every other field as it was.
    pub proof fn lemma_decode_csharp_namespace(self, s: Seq<u8>, wt: u32, n: nat, p: Seq<u8>, k: nat)
        requires
            parse_tag(s) == Ok::<(u32, u32, nat), DecodeError>((37, wt, n)),
            parse_len(s.subrange(n as int, s.len() as int)) == Ok::<(Seq<u8>, nat), DecodeError>((p, k)),
            n + k == s.len(),
            valid_utf8(p),
        ensures
            self.merge_from(s) == Ok::<FileOptionsModel, DecodeError>((FileOptionsModel { csharp_namespace: decode_utf8(p), _has: self._has.update(13, true), ..self })),
    {
        reveal(FileOptionsModel::merge_field);
        self.lemma_single_field(s, 37, wt, n);
    }

    /// A field numbered 39 holds `swift_prefix`: decoding a buffer that holds just such a field,
    /// whatever its wire type, sets `swift_prefix` to the text of its payload, marks it present,
    /// and leaves every other field as it was.
    pub proof fn lemma_decode_swift_prefix(self, s: Seq<u8>, wt: u32, n: nat, p: Seq<u8>, k: nat)
        requires
            parse_tag(s) == Ok::<(u32, u32, nat), DecodeError>((39, wt, n)),
            parse_len(s.subrange(n as int, s.len() as int)) == Ok::<(Seq<u8>, nat), DecodeError>((p, k)),
            n + k == s.len(),
            valid_utf8(p),
        ensures
            self.merge_from(s) == Ok::<FileOptionsModel, DecodeError>((FileOptionsModel { swift_prefix: decode_utf8(p), _has: self._has.update(14, true), ..self })),
    {
        reveal(FileOptionsModel::merge_field);
        self.lemma_single_field(s, 39, wt, n);
    }

    /// A field numbered 40 holds `php_class_prefix`: decoding a buffer that holds just such a field,
    /// whatever its wire type, sets `php_class_prefix` to the text of its payload, marks it present,
    /// and leaves every other field as it was.
    pub proof fn lemma_decode_php_class_prefix(self, s: Seq<u8>, wt: u32, n: nat, p: Seq<u8>, k: nat)
        requires
            parse_tag(s) == Ok::<(u32, u32, nat), DecodeError>((40, wt, n)),
            parse_len(s.subrange(n as int, s.len() as int)) == Ok::<(Seq<u8>, nat), DecodeError>((p, k)),
            n + k == s.len(),
            valid_utf8(p),
        ensures
            self.merge_from(s) == Ok::<FileOptionsModel, DecodeError>((FileOptionsModel { php_class_prefix: decode_utf8(p), _has: self._has.update(15, true), ..self })),
    {
        reveal(FileOptionsModel::merge_field);
        self.lemma_single_field(s, 40, wt, n);
    }

    /// A field numbered 41 holds `php_namespace`: decoding a buffer that holds just such a field,
    /// whatever its wire type, sets `php_namespace` to the text of its payload, marks it present,
    /// and leaves every other field as it was.
    pub proof fn lemma_decode_php_namespace(self, s: Seq<u8>, wt: u32, n: nat, p: Seq<u8>, k: nat)
        requires
            parse_tag(s) == Ok::<(u32, u32, nat), DecodeError>((41, wt, n)),
            parse_len(s.subrange(n as int, s.len() as int)) == Ok::<(Seq<u8>, nat), DecodeError>((p, k)),
            n + k == s.len(),
            valid_utf8(p),
        ensures
            self.merge_from(s) == Ok::<FileOptionsModel, DecodeError>((FileOptionsModel { php_namespace: decode_utf8(p), _has: self._has.update(16, true), ..self })),
    {
        reveal(FileOptionsModel::merge_field);
        self.lemma_single_field(s, 41, wt, n);
    }

    /// A field numbered 44 holds `php_metadata_namespace`: decoding a buffer that holds just such a field,
    /// whatever its wire type, sets `php_metadata_namespace` to the text of its payload, marks it present,
    /// and leaves every other field as it was.
    pub proof fn lemma_decode_php_metadata_namespace(self, s: Seq<u8>, wt: u32, n: nat, p: Seq<u8>, k: nat)
        requires
            parse_tag(s) == Ok::<(u32, u32, nat), DecodeError>((44, wt, n)),
            parse_len(s.subrange(n as int, s.len() as int)) == Ok::<(Seq<u8>, nat), DecodeError>((p, k)),
            n + k == s.len(),
            valid_utf8(p),
        ensures
            self.merge_from(s) == Ok::<FileOptionsModel, DecodeError>((FileOptionsModel { php_metadata_namespace: decode_utf8(p), _has: self._has.update(17, true), ..self })),
    {
        reveal(FileOptionsModel::merge_field);
        self.lemma_single_field(s, 44, wt, n);
    }

    /// A field numbered 45 holds `ruby_package`: decoding a buffer that holds just such a field,
    /// whatever its wire type, sets `ruby_package` to the text of its payload, marks it present,
    /// and leaves every other field as it was.
    pub proof fn lemma_decode_ruby_package(self, s: Seq<u8>, wt: u32, n: nat, p: Seq<u8>, k: nat)
        requires
            parse_tag(s) == Ok::<(u32, u32, nat), DecodeError>((45, wt, n)),
            parse_len(s.subrange(n as int, s.len() as int)) == Ok::<(Seq<u8>, nat), DecodeError>((p, k)),
            n + k == s.len(),
            valid_utf8(p),
        ensures
            self.merge_from(s) == Ok::<FileOptionsModel, DecodeError>((FileOptionsModel { ruby_package: decode_utf8(p), _has: self._has.update(18, true), ..self })),
    {
        reveal(FileOptionsModel::merge_field);
        self.lemma_single_field(s, 45, wt, n);
    }

    /// A field numbered 50 holds `features`: decoding a buffer that holds just such a field,
    /// whatever its wire type, merges its payload into `features`, marks it present,
    /// and leaves every other field as it was.
    pub proof fn lemma_decode_features(self, s: Seq<u8>, wt: u32, n: nat, l: u64, m: nat, x: pb::FeatureSet_::FeatureSetModel)
        requires
            parse_tag(s) == Ok::<(u32, u32, nat), DecodeError>((50, wt, n)),
            parse_varint(s.subrange(n as int, s.len() as int)) == Ok::<(u64, nat), DecodeError>((l, m)),
            n + m + l == s.len(),
            self.features.merge_from(s.subrange((n + m) as int, s.len() as int)) == Ok::<pb::FeatureSet_::FeatureSetModel, DecodeError>(x),
        ensures
            self.merge_from(s) == Ok::<FileOptionsModel, DecodeError>((FileOptionsModel { features: x, _has: self._has.update(19, true), ..self })),
    {
        reveal(FileOptionsModel::merge_field);
        lemma_tag_bounds(s);
        lemma_varint_bounds(s.subrange(n as int, s.len() as int));
        assert(s.subrange(n as int, s.len() as int).subrange(m as int, s.subrange(n as int, s.len() as int).len() as int) =~= s.subrange((n + m) as int, s.len() as int));
        self.features.lemma_stream_bounds(s.subrange((n + m) as int, s.len() as int), l as int);
        self.lemma_single_field(s, 50, wt, n);
    }

    /// A field numbered 999 holds `uninterpreted_option`: decoding a buffer that holds just such a field,
    /// whatever its wire type, decodes its payload as a new message and appends it to `uninterpreted_option`,
    /// and leaves every other field as it was.
    pub proof fn lemma_decode_uninterpreted_option(self, s: Seq<u8>, wt: u32, n: nat, l: u64, m: nat, x: pb::UninterpretedOption_::UninterpretedOptionModel)
        requires
            parse_tag(s) == Ok::<(u32, u32, nat), DecodeError>((999, wt, n)),
            parse_varint(s.subrange(n as int, s.len() as int)) == Ok::<(u64, nat), DecodeError>((l, m)),
            n + m + l == s.len(),
            pb::UninterpretedOption_::UninterpretedOptionModel::empty().merge_from(s.subrange((n + m) as int, s.len() as int)) == Ok::<pb::UninterpretedOption_::UninterpretedOptionModel, DecodeError>(x),
        ensures
            self.merge_from(s) == Ok::<FileOptionsModel, DecodeError>((FileOptionsModel { uninterpreted_option: self.uninterpreted_option.push(x), ..self })),
    {
        reveal(FileOptionsModel::merge_field);
        lemma_tag_bounds(s);
        lemma_varint_bounds(s.subrange(n as int, s.len() as int));
        assert(s.subrange(n as int, s.len() as int).subrange(m as int, s.subrange(n as int, s.len() as int).len() as int) =~= s.subrange((n + m) as int, s.len() as int));
        pb::UninterpretedOption_::UninterpretedOptionModel::empty().lemma_stream_bounds(s.subrange((n + m) as int, s.len() as int), l as int);
        self.lemma_single_field(s, 999, wt, n);
    }

    /// A field whose number this message does not define is skipped by its wire type:
    /// decoding a buffer that holds just such a field leaves the message as it was.
    pub proof fn lemma_decode_unknown(self, s: Seq<u8>, num: u32, wt: u32, n: nat, k: nat)
        requires
            parse_tag(s) == Ok::<(u32, u32, nat), DecodeError>((num, wt, n)),
            num != 0,
            num != 1 && num != 8 && num != 10 && num != 20 && num != 27 && num != 9 && num != 11 && num != 16 && num != 17 && num != 18 && num != 23 && num != 31 && num != 36 && num != 37 && num != 39 && num != 40 && num != 41 && num != 44 && num != 45 && num != 50 && num != 999,
            skip_len(s.subrange(n as int, s.len() as int), wt) == Ok::<nat, DecodeError>(k),
            n + k == s.len(),
        ensures
            self.merge_from(s) == Ok::<FileOptionsModel, DecodeError>(self),
    {
        reveal(FileOptionsModel::merge_field);
        self.lemma_single_field(s, num, wt, n);
    }
}

impl Default for FileOptions {
    fn default() -> (r: Self)
        ensures
            r@ == FileOptionsModel::empty(),
    {
        let r = FileOptions {
            java_package: String::new(),
            java_outer_classname: String::new(),
            java_multiple_files: false,
            java_generate_equals_and_hash: false,
            java_string_check_utf8: false,
            optimize_for: pb::FileOptions_::OptimizeMode::default(),
            go_package: String::new(),
            cc_generic_services: false,
            java_generic_services: false,
            py_generic_services: false,
            deprecated: false,
            cc_enable_arenas: false,
            objc_class_prefix: String::new(),
            csharp_namespace: String::new(),
            swift_prefix: String::new(),
            php_class_prefix: String::new(),
            php_namespace: String::new(),
            php_metadata_namespace: String::new(),
            ruby_package: String::new(),
            features: pb::FeatureSet_::FeatureSet::default(),
            uninterpreted_option: Vec::new(),
            _has: _Hazzer::default(),
        };
        assert(r@ =~= FileOptionsModel::empty());
        r
    }
}

impl FileOptions {
    ///Return a reference to `java_package` as an `Option`
    #[inline]
    pub fn java_package(&self) -> (r: Option<&String>)
        ensures
            r == (if self._has@[0] {
                Some(&self.java_package)
            } else {
                None
            }),
    {
        if self._has.java_package() {
            Some(&self.java_package)
        } else {
            None
        }
    }

    ///Return a mutable reference to `java_package` as an `Option`
    #[inline]
    pub fn mut_java_package(&mut self) -> (r: Option<&mut String>)
        ensures
            old(self)._has@[0] ==> r is Some && *r->0 == old(self).java_package && final(self).java_package
                == *final(r->0) && *final(self) == (FileOptions { java_package: final(self).java_package, ..*old(self) }),
            !old(self)._has@[0] ==> r is None && *final(self) == *old(self),
    {
        if self._has.java_package() {
            Some(&mut self.java_package)
        } else {
            None
        }
    }

    ///Set the value and presence of `java_package`
    #[inline]
    pub fn set_java_package(&mut self, value: String) -> (r: &mut Self)
        ensures
            r._has@ == old(self)._has@.update(0, true),
            *r == (FileOptions { java_package: value, _has: r._has, ..*old(self) }),
            *final(self) == *final(r),
    {
        self._has.set_java_package();
        self.java_package = value;
        self
    }

    ///Clear the presence of `java_package`
    #[inline]
    pub fn clear_java_package(&mut self) -> (r: &mut Self)
        ensures
            r._has@ == old(self)._has@.update(0, false),
            *r == (FileOptions { _has: r._has, ..*old(self) }),
            *final(self) == *final(r),
    {
        self._has.clear_java_package();
        self
    }

    ///Take the value of `java_package` and clear its presence
    #[inline]
    pub fn take_java_package(&mut self) -> (r: Option<String>)
        ensures
            r == (if old(self)._has@[0] {
                Some(old(self).java_package)
            } else {
                None
            }),
            final(self)._has@ == old(self)._has@.update(0, false),
            old(self)._has@[0] ==> final(self).java_package@ == Seq::<char>::empty(),
            !old(self)._has@[0] ==> final(self).java_package == old(self).java_package,
            *final(self) == (FileOptions { java_package: final(self).java_package, _has: final(self)._has, ..*old(self) }),
    {
        let val = if self._has.java_package() {
            let mut v: String = String::new();
            std::mem::swap(&mut self.java_package, &mut v);
            Some(v)
        } else {
            None
        };
        self._has.clear_java_package();
        val
    }

    ///Builder method that sets the value of `java_package`. Useful for initializing the message.
    #[inline]
    pub fn init_java_package(self, value: String) -> (r: Self)
        ensures
            r._has@ == self._has@.update(0, true),
            r == (FileOptions { java_package: value, _has: r._has, ..self }),
    {
        let mut s = self;
        s.set_java_package(value);
        s
    }

    ///Return a reference to `java_outer_classname` as an `Option`
    #[inline]
    pub fn java_outer_classname(&self) -> (r: Option<&String>)
        ensures
            r == (if self._has@[1] {
                Some(&self.java_outer_classname)
            } else {
                None
            }),
    {
        if self._has.java_outer_classname() {
            Some(&self.java_outer_classname)
        } else {
            None
        }
    }

    ///Return a mutable reference to `java_outer_classname` as an `Option`
    #[inline]
    pub fn mut_java_outer_classname(&mut self) -> (r: Option<&mut String>)
        ensures
            old(self)._has@[1] ==> r is Some && *r->0 == old(self).java_outer_classname && final(self).java_outer_classname
                == *final(r->0) && *final(self) == (FileOptions { java_outer_classname: final(self).java_outer_classname, ..*old(self) }),
            !old(self)._has@[1] ==> r is None && *final(self) == *old(self),
    {
        if self._has.java_outer_classname() {
            Some(&mut self.java_outer_classname)
        } else {
            None
        }
    }

    ///Set the value and presence of `java_outer_classname`
    #[inline]
    pub fn set_java_outer_classname(&mut self, value: String) -> (r: &mut Self)
        ensures
            r._has@ == old(self)._has@.update(1, true),
            *r == (FileOptions { java_outer_classname: value, _has: r._has, ..*old(self) }),
            *final(self) == *final(r),
    {
        self._has.set_java_outer_classname();
        self.java_outer_classname = value;
        self
    }

    ///Clear the presence of `java_outer_classname`
    #[inline]
    pub fn clear_java_outer_classname(&mut self) -> (r: &mut Self)
        ensures
            r._has@ == old(self)._has@.update(1, false),
            *r == (FileOptions { _has: r._has, ..*old(self) }),
            *final(self) == *final(r),
    {
        self._has.clear_java_outer_classname();
        self
    }

    ///Take the value of `java_outer_classname` and clear its presence
    #[inline]
    pub fn take_java_outer_classname(&mut self) -> (r: Option<String>)
        ensures
            r == (if old(self)._has@[1] {
                Some(old(self).java_outer_classname)
            } else {
                None
            }),
            final(self)._has@ == old(self)._has@.update(1, false),
            old(self)._has@[1] ==> final(self).java_outer_classname@ == Seq::<char>::empty(),
            !old(self)._has@[1] ==> final(self).java_outer_classname == old(self).java_outer_classname,
            *final(self) == (FileOptions { java_outer_classname: final(self).java_outer_classname, _has: final(self)._has, ..*old(self) }),
    {
        let val = if self._has.java_outer_classname() {
            let mut v: String = String::new();
            std::mem::swap(&mut self.java_outer_classname, &mut v);
            Some(v)
        } else {
            None
        };
        self._has.clear_java_outer_classname();
        val
    }

    ///Builder method that sets the value of `java_outer_classname`. Useful for initializing the message.
    #[inline]
    pub fn init_java_outer_classname(self, value: String) -> (r: Self)
        ensures
            r._has@ == self._has@.update(1, true),
            r == (FileOptions { java_outer_classname: value, _has: r._has, ..self }),
    {
        let mut s = self;
        s.set_java_outer_classname(value);
        s
    }

    ///Return a reference to `java_multiple_files` as an `Option`
    #[inline]
    pub fn java_multiple_files(&self) -> (r: Option<&bool>)
        ensures
            r == (if self._has@[2] {
                Some(&self.java_multiple_files)
            } else {
                None
            }),
    {
        if self._has.java_multiple_files() {
            Some(&self.java_multiple_files)
        } else {
            None
        }
    }

    ///Return a mutable reference to `java_multiple_files` as an `Option`
    #[inline]
    pub fn mut_java_multiple_files(&mut self) -> (r: Option<&mut bool>)
        ensures
            old(self)._has@[2] ==> r is Some && *r->0 == old(self).java_multiple_files && final(self).java_multiple_files
                == *final(r->0) && *final(self) == (FileOptions { java_multiple_files: final(self).java_multiple_files, ..*old(self) }),
            !old(self)._has@[2] ==> r is None && *final(self) == *old(self),
    {
        if self._has.java_multiple_files() {
            Some(&mut self.java_multiple_files)
        } else {
            None
        }
    }

    ///Set the value and presence of `java_multiple_files`
    #[inline]
    pub fn set_java_multiple_files(&mut self, value: bool) -> (r: &mut Self)
        ensures
            r._has@ == old(self)._has@.update(2, true),
            *r == (FileOptions { java_multiple_files: value, _has: r._has, ..*old(self) }),
            *final(self) == *final(r),
    {
        self._has.set_java_multiple_files();
        self.java_multiple_files = value;
        self
    }

    ///Clear the presence of `java_multiple_files`
    #[inline]
    pub fn clear_java_multiple_files(&mut self) -> (r: &mut Self)
        ensures
            r._has@ == old(self)._has@.update(2, false),
            *r == (FileOptions { _has: r._has, ..*old(self) }),
            *final(self) == *final(r),
    {
        self._has.clear_java_multiple_files();
        self
    }

    ///Take the value of `java_multiple_files` and clear its presence
    #[inline]
    pub fn take_java_multiple_files(&mut self) -> (r: Option<bool>)
        ensures
            r == (if old(self)._has@[2] {
                Some(old(self).java_multiple_files)
            } else {
                None
            }),
            final(self)._has@ == old(self)._has@.update(2, false),
            old(self)._has@[2] ==> !final(self).java_multiple_files,
            !old(self)._has@[2] ==> final(self).java_multiple_files == old(self).java_multiple_files,
            *final(self) == (FileOptions { java_multiple_files: final(self).java_multiple_files, _has: final(self)._has, ..*old(self) }),
    {
        let val = if self._has.java_multiple_files() {
            let mut v: bool = false;
            std::mem::swap(&mut self.java_multiple_files, &mut v);
            Some(v)
        } else {
            None
        };
        self._has.clear_java_multiple_files();
        val
    }

    ///Builder method that sets the value of `java_multiple_files`. Useful for initializing the message.
    #[inline]
    pub fn init_java_multiple_files(self, value: bool) -> (r: Self)
        ensures
            r._has@ == self._has@.update(2, true),
            r == (FileOptions { java_multiple_files: value, _has: r._has, ..self }),
    {
        let mut s = self;
        s.set_java_multiple_files(value);
        s
    }

    ///Return a reference to `java_generate_equals_and_hash` as an `Option`
    #[inline]
    pub fn java_generate_equals_and_hash(&self) -> (r: Option<&bool>)
        ensures
            r == (if self._has@[3] {
                Some(&self.java_generate_equals_and_hash)
            } else {
                None
            }),
    {
        if self._has.java_generate_equals_and_hash() {
            Some(&self.java_generate_equals_and_hash)
        } else {
            None
        }
    }

    ///Return a mutable reference to `java_generate_equals_and_hash` as an `Option`
    #[inline]
    pub fn mut_java_generate_equals_and_hash(&mut self) -> (r: Option<&mut bool>)
        ensures
            old(self)._has@[3] ==> r is Some && *r->0 == old(self).java_generate_equals_and_hash && final(self).java_generate_equals_and_hash
                == *final(r->0) && *final(self) == (FileOptions { java_generate_equals_and_hash: final(self).java_generate_equals_and_hash, ..*old(self) }),
            !old(self)._has@[3] ==> r is None && *final(self) == *old(self),
    {
        if self._has.java_generate_equals_and_hash() {
            Some(&mut self.java_generate_equals_and_hash)
        } else {
            None
        }
    }

    ///Set the value and presence of `java_generate_equals_and_hash`
    #[inline]
    pub fn set_java_generate_equals_and_hash(&mut self, value: bool) -> (r: &mut Self)
        ensures
            r._has@ == old(self)._has@.update(3, true),
            *r == (FileOptions { java_generate_equals_and_hash: value, _has: r._has, ..*old(self) }),
            *final(self) == *final(r),
    {
        self._has.set_java_generate_equals_and_hash();
        self.java_generate_equals_and_hash = value;
        self
    }

    ///Clear the presence of `java_generate_equals_and_hash`
    #[inline]
    pub fn clear_java_generate_equals_and_hash(&mut self) -> (r: &mut Self)
        ensures
            r._has@ == old(self)._has@.update(3, false),
            *r == (FileOptions { _has: r._has, ..*old(self) }),
            *final(self) == *final(r),
    {
        self._has.clear_java_generate_equals_and_hash();
        self
    }

    ///Take the value of `java_generate_equals_and_hash` and clear its presence
    #[inline]
    pub fn take_java_generate_equals_and_hash(&mut self) -> (r: Option<bool>)
        ensures
            r == (if old(self)._has@[3] {
                Some(old(self).java_generate_equals_and_hash)
            } else {
                None
            }),
            final(self)._has@ == old(self)._has@.update(3, false),
            old(self)._has@[3] ==> !final(self).java_generate_equals_and_hash,
            !old(self)._has@[3] ==> final(self).java_generate_equals_and_hash == old(self).java_generate_equals_and_hash,
            *final(self) == (FileOptions { java_generate_equals_and_hash: final(self).java_generate_equals_and_hash, _has: final(self)._has, ..*old(self) }),
    {
        let val = if self._has.java_generate_equals_and_hash() {
            let mut v: bool = false;
            std::mem::swap(&mut self.java_generate_equals_and_hash, &mut v);
            Some(v)
        } else {
            None
        };
        self._has.clear_java_generate_equals_and_hash();
        val
    }

    ///Builder method that sets the value of `java_generate_equals_and_hash`. Useful for initializing the message.
    #[inline]
    pub fn init_java_generate_equals_and_hash(self, value: bool) -> (r: Self)
        ensures
            r._has@ == self._has@.update(3, true),
            r == (FileOptions { java_generate_equals_and_hash: value, _has: r._has, ..self }),
    {
        let mut s = self;
        s.set_java_generate_equals_and_hash(value);
        s
    }

    ///Return a reference to `java_string_check_utf8` as an `Option`
    #[inline]
    pub fn java_string_check_utf8(&self) -> (r: Option<&bool>)
        ensures
            r == (if self._has@[4] {
                Some(&self.java_string_check_utf8)
            } else {
                None
            }),
    {
        if self._has.java_string_check_utf8() {
            Some(&self.java_string_check_utf8)
        } else {
            None
        }
    }

    ///Return a mutable reference to `java_string_check_utf8` as an `Option`
    #[inline]
    pub fn mut_java_string_check_utf8(&mut self) -> (r: Option<&mut bool>)
        ensures
            old(self)._has@[4] ==> r is Some && *r->0 == old(self).java_string_check_utf8 && final(self).java_string_check_utf8
                == *final(r->0) && *final(self) == (FileOptions { java_string_check_utf8: final(self).java_string_check_utf8, ..*old(self) }),
            !old(self)._has@[4] ==> r is None && *final(self) == *old(self),
    {
        if self._has.java_string_check_utf8() {
            Some(&mut self.java_string_check_utf8)
        } else {
            None
        }
    }

    ///Set the value and presence of `java_string_check_utf8`
    #[inline]
    pub fn set_java_string_check_utf8(&mut self, value: bool) -> (r: &mut Self)
        ensures
            r._has@ == old(self)._has@.update(4, true),
            *r == (FileOptions { java_string_check_utf8: value, _has: r._has, ..*old(self) }),
            *final(self) == *final(r),
    {
        self._has.set_java_string_check_utf8();
        self.java_string_check_utf8 = value;
        self
    }

    ///Clear the presence of `java_string_check_utf8`
    #[inline]
    pub fn clear_java_string_check_utf8(&mut self) -> (r: &mut Self)
        ensures
            r._has@ == old(self)._has@.update(4, false),
            *r == (FileOptions { _has: r._has, ..*old(self) }),
            *final(self) == *final(r),
    {
        self._has.clear_java_string_check_utf8();
        self
    }

    ///Take the value of `java_string_check_utf8` and clear its presence
    #[inline]
    pub fn take_java_string_check_utf8(&mut self) -> (r: Option<bool>)
        ensures
            r == (if old(self)._has@[4] {
                Some(old(self).java_string_check_utf8)
            } else {
                None
            }),
            final(self)._has@ == old(self)._has@.update(4, false),
            old(self)._has@[4] ==> !final(self).java_string_check_utf8,
            !old(self)._has@[4] ==> final(self).java_string_check_utf8 == old(self).java_string_check_utf8,
            *final(self) == (FileOptions { java_string_check_utf8: final(self).java_string_check_utf8, _has: final(self)._has, ..*old(self) }),
    {
        let val = if self._has.java_string_check_utf8() {
            let mut v: bool = false;
            std::mem::swap(&mut self.java_string_check_utf8, &mut v);
            Some(v)
        } else {
            None
        };
        self._has.clear_java_string_check_utf8();
        val
    }

    ///Builder method that sets the value of `java_string_check_utf8`. Useful for initializing the message.
    #[inline]
    pub fn init_java_string_check_utf8(self, value: bool) -> (r: Self)
        ensures
            r._has@ == self._has@.update(4, true),
            r == (FileOptions { java_string_check_utf8: value, _has: r._has, ..self }),
    {
        let mut s = self;
        s.set_java_string_check_utf8(value);
        s
    }

    ///Return a reference to `optimize_for` as an `Option`
    #[inline]
    pub fn optimize_for(&self) -> (r: Option<&pb::FileOptions_::OptimizeMode>)
        ensures
            r == (if self._has@[5] {
                Some(&self.optimize_for)
            } else {
                None
            }),
    {
        if self._has.optimize_for() {
            Some(&self.optimize_for)
        } else {
            None
        }
    }

    ///Return a mutable reference to `optimize_for` as an `Option`
    #[inline]
    pub fn mut_optimize_for(&mut self) -> (r: Option<&mut pb::FileOptions_::OptimizeMode>)
        ensures
            old(self)._has@[5] ==> r is Some && *r->0 == old(self).optimize_for && final(self).optimize_for
                == *final(r->0) && *final(self) == (FileOptions { optimize_for: final(self).optimize_for, ..*old(self) }),
            !old(self)._has@[5] ==> r is None && *final(self) == *old(self),
    {
        if self._has.optimize_for() {
            Some(&mut self.optimize_for)
        } else {
            None
        }
    }

    ///Set the value and presence of `optimize_for`
    #[inline]
    pub fn set_optimize_for(&mut self, value: pb::FileOptions_::OptimizeMode) -> (r: &mut Self)
        ensures
            r._has@ == old(self)._has@.update(5, true),
            *r == (FileOptions { optimize_for: value, _has: r._has, ..*old(self) }),
            *final(self) == *final(r),
    {
        self._has.set_optimize_for();
        self.optimize_for = value;
        self
    }

    ///Clear the presence of `optimize_for`
    #[inline]
    pub fn clear_optimize_for(&mut self) -> (r: &mut Self)
        ensures
            r._has@ == old(self)._has@.update(5, false),
            *r == (FileOptions { _has: r._has, ..*old(self) }),
            *final(self) == *final(r),
    {
        self._has.clear_optimize_for();
        self
    }

    ///Take the value of `optimize_for` and clear its presence
    #[inline]
    pub fn take_optimize_for(&mut self) -> (r: Option<pb::FileOptions_::OptimizeMode>)
        ensures
            r == (if old(self)._has@[5] {
                Some(old(self).optimize_for)
            } else {
                None
            }),
            final(self)._has@ == old(self)._has@.update(5, false),
            old(self)._has@[5] ==> final(self).optimize_for == pb::FileOptions_::OptimizeMode(0),
            !old(self)._has@[5] ==> final(self).optimize_for == old(self).optimize_for,
            *final(self) == (FileOptions { optimize_for: final(self).optimize_for, _has: final(self)._has, ..*old(self) }),
    {
        let val = if self._has.optimize_for() {
            let mut v: pb::FileOptions_::OptimizeMode = pb::FileOptions_::OptimizeMode::default();
            std::mem::swap(&mut self.optimize_for, &mut v);
            Some(v)
        } else {
            None
        };
        self._has.clear_optimize_for();
        val
    }

    ///Builder method that sets the value of `optimize_for`. Useful for initializing the message.
    #[inline]
    pub fn init_optimize_for(self, value: pb::FileOptions_::OptimizeMode) -> (r: Self)
        ensures
            r._has@ == self._has@.update(5, true),
            r == (FileOptions { optimize_for: value, _has: r._has, ..self }),
    {
        let mut s = self;
        s.set_optimize_for(value);
        s
    }

    ///Return a reference to `go_package` as an `Option`
    #[inline]
    pub fn go_package(&self) -> (r: Option<&String>)
        ensures
            r == (if self._has@[6] {
                Some(&self.go_package)
            } else {
                None
            }),
    {
        if self._has.go_package() {
            Some(&self.go_package)
        } else {
            None
        }
    }

    ///Return a mutable reference to `go_package` as an `Option`
    #[inline]
    pub fn mut_go_package(&mut self) -> (r: Option<&mut String>)
        ensures
            old(self)._has@[6] ==> r is Some && *r->0 == old(self).go_package && final(self).go_package
                == *final(r->0) && *final(self) == (FileOptions { go_package: final(self).go_package, ..*old(self) }),
            !old(self)._has@[6] ==> r is None && *final(self) == *old(self),
    {
        if self._has.go_package() {
            Some(&mut self.go_package)
        } else {
            None
        }
    }

    ///Set the value and presence of `go_package`
    #[inline]
    pub fn set_go_package(&mut self, value: String) -> (r: &mut Self)
        ensures
            r._has@ == old(self)._has@.update(6, true),
            *r == (FileOptions { go_package: value, _has: r._has, ..*old(self) }),
            *final(self) == *final(r),
    {
        self._has.set_go_package();
        self.go_package = value;
        self
    }

    ///Clear the presence of `go_package`
    #[inline]
    pub fn clear_go_package(&mut self) -> (r: &mut Self)
        ensures
            r._has@ == old(self)._has@.update(6, false),
            *r == (FileOptions { _has: r._has, ..*old(self) }),
            *final(self) == *final(r),
    {
        self._has.clear_go_package();
        self
    }

    ///Take the value of `go_package` and clear its presence
    #[inline]
    pub fn take_go_package(&mut self) -> (r: Option<String>)
        ensures
            r == (if old(self)._has@[6] {
                Some(old(self).go_package)
            } else {
                None
            }),
            final(self)._has@ == old(self)._has@.update(6, false),
            old(self)._has@[6] ==> final(self).go_package@ == Seq::<char>::empty(),
            !old(self)._has@[6] ==> final(self).go_package == old(self).go_package,
            *final(self) == (FileOptions { go_package: final(self).go_package, _has: final(self)._has, ..*old(self) }),
    {
        let val = if self._has.go_package() {
            let mut v: String = String::new();
            std::mem::swap(&mut self.go_package, &mut v);
            Some(v)
        } else {
            None
        };
        self._has.clear_go_package();
        val
    }

    ///Builder method that sets the value of `go_package`. Useful for initializing the message.
    #[inline]
    pub fn init_go_package(self, value: String) -> (r: Self)
        ensures
            r._has@ == self._has@.update(6, true),
            r == (FileOptions { go_package: value, _has: r._has, ..self }),
    {
        let mut s = self;
        s.set_go_package(value);
        s
    }

    ///Return a reference to `cc_generic_services` as an `Option`
    #[inline]
    pub fn cc_generic_services(&self) -> (r: Option<&bool>)
        ensures
            r == (if self._has@[7] {
                Some(&self.cc_generic_services)
            } else {
                None
            }),
    {
        if self._has.cc_generic_services() {
            Some(&self.cc_generic_services)
        } else {
            None
        }
    }

    ///Return a mutable reference to `cc_generic_services` as an `Option`
    #[inline]
    pub fn mut_cc_generic_services(&mut self) -> (r: Option<&mut bool>)
        ensures
            old(self)._has@[7] ==> r is Some && *r->0 == old(self).cc_generic_services && final(self).cc_generic_services
                == *final(r->0) && *final(self) == (FileOptions { cc_generic_services: final(self).cc_generic_services, ..*old(self) }),
            !old(self)._has@[7] ==> r is None && *final(self) == *old(self),
    {
        if self._has.cc_generic_services() {
            Some(&mut self.cc_generic_services)
        } else {
            None
        }
    }

    ///Set the value and presence of `cc_generic_services`
    #[inline]
    pub fn set_cc_generic_services(&mut self, value: bool) -> (r: &mut Self)
        ensures
            r._has@ == old(self)._has@.update(7, true),
            *r == (FileOptions { cc_generic_services: value, _has: r._has, ..*old(self) }),
            *final(self) == *final(r),
    {
        self._has.set_cc_generic_services();
        self.cc_generic_services = value;
        self
    }

    ///Clear the presence of `cc_generic_services`
    #[inline]
    pub fn clear_cc_generic_services(&mut self) -> (r: &mut Self)
        ensures
            r._has@ == old(self)._has@.update(7, false),
            *r == (FileOptions { _has: r._has, ..*old(self) }),
            *final(self) == *final(r),
    {
        self._has.clear_cc_generic_services();
        self
    }

    ///Take the value of `cc_generic_services` and clear its presence
    #[inline]
    pub fn take_cc_generic_services(&mut self) -> (r: Option<bool>)
        ensures
            r == (if old(self)._has@[7] {
                Some(old(self).cc_generic_services)
            } else {
                None
            }),
            final(self)._has@ == old(self)._has@.update(7, false),
            old(self)._has@[7] ==> !final(self).cc_generic_services,
            !old(self)._has@[7] ==> final(self).cc_generic_services == old(self).cc_generic_services,
            *final(self) == (FileOptions { cc_generic_services: final(self).cc_generic_services, _has: final(self)._has, ..*old(self) }),
    {
        let val = if self._has.cc_generic_services() {
            let mut v: bool = false;
            std::mem::swap(&mut self.cc_generic_services, &mut v);
            Some(v)
        } else {
            None
        };
        self._has.clear_cc_generic_services();
        val
    }

    ///Builder method that sets the value of `cc_generic_services`. Useful for initializing the message.
    #[inline]
    pub fn init_cc_generic_services(self, value: bool) -> (r: Self)
        ensures
            r._has@ == self._has@.update(7, true),
            r == (FileOptions { cc_generic_services: value, _has: r._has, ..self }),
    {
        let mut s = self;
        s.set_cc_generic_services(value);
        s
    }

    ///Return a reference to `java_generic_services` as an `Option`
    #[inline]
    pub fn java_generic_services(&self) -> (r: Option<&bool>)
        ensures
            r == (if self._has@[8] {
                Some(&self.java_generic_services)
            } else {
                None
            }),
    {
        if self._has.java_generic_services() {
            Some(&self.java_generic_services)
        } else {
            None
        }
    }

    ///Return a mutable reference to `java_generic_services` as an `Option`
    #[inline]
    pub fn mut_java_generic_services(&mut self) -> (r: Option<&mut bool>)
        ensures
            old(self)._has@[8] ==> r is Some && *r->0 == old(self).java_generic_services && final(self).java_generic_services
                == *final(r->0) && *final(self) == (FileOptions { java_generic_services: final(self).java_generic_services, ..*old(self) }),
            !old(self)._has@[8] ==> r is None && *final(self) == *old(self),
    {
        if self._has.java_generic_services() {
            Some(&mut self.java_generic_services)
        } else {
            None
        }
    }

    ///Set the value and presence of `java_generic_services`
    #[inline]
    pub fn set_java_generic_services(&mut self, value: bool) -> (r: &mut Self)
        ensures
            r._has@ == old(self)._has@.update(8, true),
            *r == (FileOptions { java_generic_services: value, _has: r._has, ..*old(self) }),
            *final(self) == *final(r),
    {
        self._has.set_java_generic_services();
        self.java_generic_services = value;
        self
    }

    ///Clear the presence of `java_generic_services`
    #[inline]
    pub fn clear_java_generic_services(&mut self) -> (r: &mut Self)
        ensures
            r._has@ == old(self)._has@.update(8, false),
            *r == (FileOptions { _has: r._has, ..*old(self) }),
            *final(self) == *final(r),
    {
        self._has.clear_java_generic_services();
        self
    }

    ///Take the value of `java_generic_services` and clear its presence
    #[inline]
    pub fn take_java_generic_services(&mut self) -> (r: Option<bool>)
        ensures
            r == (if old(self)._has@[8] {
                Some(old(self).java_generic_services)
            } else {
                None
            }),
            final(self)._has@ == old(self)._has@.update(8, false),
            old(self)._has@[8] ==> !final(self).java_generic_services,
            !old(self)._has@[8] ==> final(self).java_generic_services == old(self).java_generic_services,
            *final(self) == (FileOptions { java_generic_services: final(self).java_generic_services, _has: final(self)._has, ..*old(self) }),
    {
        let val = if self._has.java_generic_services() {
            let mut v: bool = false;
            std::mem::swap(&mut self.java_generic_services, &mut v);
            Some(v)
        } else {
            None
        };
        self._has.clear_java_generic_services();
        val
    }

    ///Builder method that sets the value of `java_generic_services`. Useful for initializing the message.
    #[inline]
    pub fn init_java_generic_services(self, value: bool) -> (r: Self)
        ensures
            r._has@ == self._has@.update(8, true),
            r == (FileOptions { java_generic_services: value, _has: r._has, ..self }),
    {
        let mut s = self;
        s.set_java_generic_services(value);
        s
    }

    ///Return a reference to `py_generic_services` as an `Option`
    #[inline]
    pub fn py_generic_services(&self) -> (r: Option<&bool>)
        ensures
            r == (if self._has@[9] {
                Some(&self.py_generic_services)
            } else {
                None
            }),
    {
        if self._has.py_generic_services() {
            Some(&self.py_generic_services)
        } else {
            None
        }
    }

    ///Return a mutable reference to `py_generic_services` as an `Option`
    #[inline]
    pub fn mut_py_generic_services(&mut self) -> (r: Option<&mut bool>)
        ensures
            old(self)._has@[9] ==> r is Some && *r->0 == old(self).py_generic_services && final(self).py_generic_services
                == *final(r->0) && *final(self) == (FileOptions { py_generic_services: final(self).py_generic_services, ..*old(self) }),
            !old(self)._has@[9] ==> r is None && *final(self) == *old(self),
    {
        if self._has.py_generic_services() {
            Some(&mut self.py_generic_services)
        } else {
            None
        }
    }

    ///Set the value and presence of `py_generic_services`
    #[inline]
    pub fn set_py_generic_services(&mut self, value: bool) -> (r: &mut Self)
        ensures
            r._has@ == old(self)._has@.update(9, true),
            *r == (FileOptions { py_generic_services: value, _has: r._has, ..*old(self) }),
            *final(self) == *final(r),
    {
        self._has.set_py_generic_services();
        self.py_generic_services = value;
        self
    }

    ///Clear the presence of `py_generic_services`
    #[inline]
    pub fn clear_py_generic_services(&mut self) -> (r: &mut Self)
        ensures
            r._has@ == old(self)._has@.update(9, false),
            *r == (FileOptions { _has: r._has, ..*old(self) }),
            *final(self) == *final(r),
    {
        self._has.clear_py_generic_services();
        self
    }

    ///Take the value of `py_generic_services` and clear its presence
    #[inline]
    pub fn take_py_generic_services(&mut self) -> (r: Option<bool>)
        ensures
            r == (if old(self)._has@[9] {
                Some(old(self).py_generic_services)
            } else {
                None
            }),
            final(self)._has@ == old(self)._has@.update(9, false),
            old(self)._has@[9] ==> !final(self).py_generic_services,
            !old(self)._has@[9] ==> final(self).py_generic_services == old(self).py_generic_services,
            *final(self) == (FileOptions { py_generic_services: final(self).py_generic_services, _has: final(self)._has, ..*old(self) }),
    {
        let val = if self._has.py_generic_services() {
            let mut v: bool = false;
            std::mem::swap(&mut self.py_generic_services, &mut v);
            Some(v)
        } else {
            None
        };
        self._has.clear_py_generic_services();
        val
    }

    ///Builder method that sets the value of `py_generic_services`. Useful for initializing the message.
    #[inline]
    pub fn init_py_generic_services(self, value: bool) -> (r: Self)
        ensures
            r._has@ == self._has@.update(9, true),
            r == (FileOptions { py_generic_services: value, _has: r._has, ..self }),
    {
        let mut s = self;
        s.set_py_generic_services(value);
        s
    }

    ///Return a reference to `deprecated` as an `Option`
    #[inline]
    pub fn deprecated(&self) -> (r: Option<&bool>)
        ensures
            r == (if self._has@[10] {
                Some(&self.deprecated)
            } else {
                None
            }),
    {
        if self._has.deprecated() {
            Some(&self.deprecated)
        } else {
            None
        }
    }

    ///Return a mutable reference to `deprecated` as an `Option`
    #[inline]
    pub fn mut_deprecated(&mut self) -> (r: Option<&mut bool>)
        ensures
            old(self)._has@[10] ==> r is Some && *r->0 == old(self).deprecated && final(self).deprecated
                == *final(r->0) && *final(self) == (FileOptions { deprecated: final(self).deprecated, ..*old(self) }),
            !old(self)._has@[10] ==> r is None && *final(self) == *old(self),
    {
        if self._has.deprecated() {
            Some(&mut self.deprecated)
        } else {
            None
        }
    }

    ///Set the value and presence of `deprecated`
    #[inline]
    pub fn set_deprecated(&mut self, value: bool) -> (r: &mut Self)
        ensures
            r._has@ == old(self)._has@.update(10, true),
            *r == (FileOptions { deprecated: value, _has: r._has, ..*old(self) }),
            *final(self) == *final(r),
    {
        self._has.set_deprecated();
        self.deprecated = value;
        self
    }

    ///Clear the presence of `deprecated`
    #[inline]
    pub fn clear_deprecated(&mut self) -> (r: &mut Self)
        ensures
            r._has@ == old(self)._has@.update(10, false),
            *r == (FileOptions { _has: r._has, ..*old(self) }),
            *final(self) == *final(r),
    {
        self._has.clear_deprecated();
        self
    }

    ///Take the value of `deprecated` and clear its presence
    #[inline]
    pub fn take_deprecated(&mut self) -> (r: Option<bool>)
        ensures
            r == (if old(self)._has@[10] {
                Some(old(self).deprecated)
            } else {
                None
            }),
            final(self)._has@ == old(self)._has@.update(10, false),
            old(self)._has@[10] ==> !final(self).deprecated,
            !old(self)._has@[10] ==> final(self).deprecated == old(self).deprecated,
            *final(self) == (FileOptions { deprecated: final(self).deprecated, _has: final(self)._has, ..*old(self) }),
    {
        let val = if self._has.deprecated() {
            let mut v: bool = false;
            std::mem::swap(&mut self.deprecated, &mut v);
            Some(v)
        } else {
            None
        };
        self._has.clear_deprecated();
        val
    }

    ///Builder method that sets the value of `deprecated`. Useful for initializing the message.
    #[inline]
    pub fn init_deprecated(self, value: bool) -> (r: Self)
        ensures
            r._has@ == self._has@.update(10, true),
            r == (FileOptions { deprecated: value, _has: r._has, ..self }),
    {
        let mut s = self;
        s.set_deprecated(value);
        s
    }

    ///Return a reference to `cc_enable_arenas` as an `Option`
    #[inline]
    pub fn cc_enable_arenas(&self) -> (r: Option<&bool>)
        ensures
            r == (if self._has@[11] {
                Some(&self.cc_enable_arenas)
            } else {
                None
            }),
    {
        if self._has.cc_enable_arenas() {
            Some(&self.cc_enable_arenas)
        } else {
            None
        }
    }

    ///Return a mutable reference to `cc_enable_arenas` as an `Option`
    #[inline]
    pub fn mut_cc_enable_arenas(&mut self) -> (r: Option<&mut bool>)
        ensures
            old(self)._has@[11] ==> r is Some && *r->0 == old(self).cc_enable_arenas && final(self).cc_enable_arenas
                == *final(r->0) && *final(self) == (FileOptions { cc_enable_arenas: final(self).cc_enable_arenas, ..*old(self) }),
            !old(self)._has@[11] ==> r is None && *final(self) == *old(self),
    {
        if self._has.cc_enable_arenas() {
            Some(&mut self.cc_enable_arenas)
        } else {
            None
        }
    }

    ///Set the value and presence of `cc_enable_arenas`
    #[inline]
    pub fn set_cc_enable_arenas(&mut self, value: bool) -> (r: &mut Self)
        ensures
            r._has@ == old(self)._has@.update(11, true),
            *r == (FileOptions { cc_enable_arenas: value, _has: r._has, ..*old(self) }),
            *final(self) == *final(r),
    {
        self._has.set_cc_enable_arenas();
        self.cc_enable_arenas = value;
        self
    }

    ///Clear the presence of `cc_enable_arenas`
    #[inline]
    pub fn clear_cc_enable_arenas(&mut self) -> (r: &mut Self)
        ensures
            r._has@ == old(self)._has@.update(11, false),
            *r == (FileOptions { _has: r._has, ..*old(self) }),
            *final(self) == *final(r),
    {
        self._has.clear_cc_enable_arenas();
        self
    }

    ///Take the value of `cc_enable_arenas` and clear its presence
    #[inline]
    pub fn take_cc_enable_arenas(&mut self) -> (r: Option<bool>)
        ensures
            r == (if old(self)._has@[11] {
                Some(old(self).cc_enable_arenas)
            } else {
                None
            }),
            final(self)._has@ == old(self)._has@.update(11, false),
            old(self)._has@[11] ==> !final(self).cc_enable_arenas,
            !old(self)._has@[11] ==> final(self).cc_enable_arenas == old(self).cc_enable_arenas,
            *final(self) == (FileOptions { cc_enable_arenas: final(self).cc_enable_arenas, _has: final(self)._has, ..*old(self) }),
    {
        let val = if self._has.cc_enable_arenas() {
            let mut v: bool = false;
            std::mem::swap(&mut self.cc_enable_arenas, &mut v);
            Some(v)
        } else {
            None
        };
        self._has.clear_cc_enable_arenas();
        val
    }

    ///Builder method that sets the value of `cc_enable_arenas`. Useful for initializing the message.
    #[inline]
    pub fn init_cc_enable_arenas(self, value: bool) -> (r: Self)
        ensures
            r._has@ == self._has@.update(11, true),
            r == (FileOptions { cc_enable_arenas: value, _has: r._has, ..self }),
    {
        let mut s = self;
        s.set_cc_enable_arenas(value);
        s
    }

    ///Return a reference to `objc_class_prefix` as an `Option`
    #[inline]
    pub fn objc_class_prefix(&self) -> (r: Option<&String>)
        ensures
            r == (if self._has@[12] {
                Some(&self.objc_class_prefix)
            } else {
                None
            }),
    {
        if self._has.objc_class_prefix() {
            Some(&self.objc_class_prefix)
        } else {
            None
        }
    }

    ///Return a mutable reference to `objc_class_prefix` as an `Option`
    #[inline]
    pub fn mut_objc_class_prefix(&mut self) -> (r: Option<&mut String>)
        ensures
            old(self)._has@[12] ==> r is Some && *r->0 == old(self).objc_class_prefix && final(self).objc_class_prefix
                == *final(r->0) && *final(self) == (FileOptions { objc_class_prefix: final(self).objc_class_prefix, ..*old(self) }),
            !old(self)._has@[12] ==> r is None && *final(self) == *old(self),
    {
        if self._has.objc_class_prefix() {
            Some(&mut self.objc_class_prefix)
        } else {
            None
        }
    }

    ///Set the value and presence of `objc_class_prefix`
    #[inline]
    pub fn set_objc_class_prefix(&mut self, value: String) -> (r: &mut Self)
        ensures
            r._has@ == old(self)._has@.update(12, true),
            *r == (FileOptions { objc_class_prefix: value, _has: r._has, ..*old(self) }),
            *final(self) == *final(r),
    {
        self._has.set_objc_class_prefix();
        self.objc_class_prefix = value;
        self
    }

    ///Clear the presence of `objc_class_prefix`
    #[inline]
    pub fn clear_objc_class_prefix(&mut self) -> (r: &mut Self)
        ensures
            r._has@ == old(self)._has@.update(12, false),
            *r == (FileOptions { _has: r._has, ..*old(self) }),
            *final(self) == *final(r),
    {
        self._has.clear_objc_class_prefix();
        self
    }

    ///Take the value of `objc_class_prefix` and clear its presence
    #[inline]
    pub fn take_objc_class_prefix(&mut self) -> (r: Option<String>)
        ensures
            r == (if old(self)._has@[12] {
                Some(old(self).objc_class_prefix)
            } else {
                None
            }),
            final(self)._has@ == old(self)._has@.update(12, false),
            old(self)._has@[12] ==> final(self).objc_class_prefix@ == Seq::<char>::empty(),
            !old(self)._has@[12] ==> final(self).objc_class_prefix == old(self).objc_class_prefix,
            *final(self) == (FileOptions { objc_class_prefix: final(self).objc_class_prefix, _has: final(self)._has, ..*old(self) }),
    {
        let val = if self._has.objc_class_prefix() {
            let mut v: String = String::new();
            std::mem::swap(&mut self.objc_class_prefix, &mut v);
            Some(v)
        } else {
            None
        };
        self._has.clear_objc_class_prefix();
        val
    }

    ///Builder method that sets the value of `objc_class_prefix`. Useful for initializing the message.
    #[inline]
    pub fn init_objc_class_prefix(self, value: String) -> (r: Self)
        ensures
            r._has@ == self._has@.update(12, true),
            r == (FileOptions { objc_class_prefix: value, _has: r._has, ..self }),
    {
        let mut s = self;
        s.set_objc_class_prefix(value);
        s
    }

    ///Return a reference to `csharp_namespace` as an `Option`
    #[inline]
    pub fn csharp_namespace(&self) -> (r: Option<&String>)
        ensures
            r == (if self._has@[13] {
                Some(&self.csharp_namespace)
            } else {
                None
            }),
    {
        if self._has.csharp_namespace() {
            Some(&self.csharp_namespace)
        } else {
            None
        }
    }

    ///Return a mutable reference to `csharp_namespace` as an `Option`
    #[inline]
    pub fn mut_csharp_namespace(&mut self) -> (r: Option<&mut String>)
        ensures
            old(self)._has@[13] ==> r is Some && *r->0 == old(self).csharp_namespace && final(self).csharp_namespace
                == *final(r->0) && *final(self) == (FileOptions { csharp_namespace: final(self).csharp_namespace, ..*old(self) }),
            !old(self)._has@[13] ==> r is None && *final(self) == *old(self),
    {
        if self._has.csharp_namespace() {
            Some(&mut self.csharp_namespace)
        } else {
            None
        }
    }

    ///Set the value and presence of `csharp_namespace`
    #[inline]
    pub fn set_csharp_namespace(&mut self, value: String) -> (r: &mut Self)
        ensures
            r._has@ == old(self)._has@.update(13, true),
            *r == (FileOptions { csharp_namespace: value, _has: r._has, ..*old(self) }),
            *final(self) == *final(r),
    {
        self._has.set_csharp_namespace();
        self.csharp_namespace = value;
        self
    }

    ///Clear the presence of `csharp_namespace`
    #[inline]
    pub fn clear_csharp_namespace(&mut self) -> (r: &mut Self)
        ensures
            r._has@ == old(self)._has@.update(13, false),
            *r == (FileOptions { _has: r._has, ..*old(self) }),
            *final(self) == *final(r),
    {
        self._has.clear_csharp_namespace();
        self
    }

    ///Take the value of `csharp_namespace` and clear its presence
    #[inline]
    pub fn take_csharp_namespace(&mut self) -> (r: Option<String>)
        ensures
            r == (if old(self)._has@[13] {
                Some(old(self).csharp_namespace)
            } else {
                None
            }),
            final(self)._has@ == old(self)._has@.update(13, false),
            old(self)._has@[13] ==> final(self).csharp_namespace@ == Seq::<char>::empty(),
            !old(self)._has@[13] ==> final(self).csharp_namespace == old(self).csharp_namespace,
            *final(self) == (FileOptions { csharp_namespace: final(self).csharp_namespace, _has: final(self)._has, ..*old(self) }),
    {
        let val = if self._has.csharp_namespace() {
            let mut v: String = String::new();
            std::mem::swap(&mut self.csharp_namespace, &mut v);
            Some(v)
        } else {
            None
        };
        self._has.clear_csharp_namespace();
        val
    }

    ///Builder method that sets the value of `csharp_namespace`. Useful for initializing the message.
    #[inline]
    pub fn init_csharp_namespace(self, value: String) -> (r: Self)
        ensures
            r._has@ == self._has@.update(13, true),
            r == (FileOptions { csharp_namespace: value, _has: r._has, ..self }),
    {
        let mut s = self;
        s.set_csharp_namespace(value);
        s
    }

    ///Return a reference to `swift_prefix` as an `Option`
    #[inline]
    pub fn swift_prefix(&self) -> (r: Option<&String>)
        ensures
            r == (if self._has@[14] {
                Some(&self.swift_prefix)
            } else {
                None
            }),
    {
        if self._has.swift_prefix() {
            Some(&self.swift_prefix)
        } else {
            None
        }
    }

    ///Return a mutable reference to `swift_prefix` as an `Option`
    #[inline]
    pub fn mut_swift_prefix(&mut self) -> (r: Option<&mut String>)
        ensures
            old(self)._has@[14] ==> r is Some && *r->0 == old(self).swift_prefix && final(self).swift_prefix
                == *final(r->0) && *final(self) == (FileOptions { swift_prefix: final(self).swift_prefix, ..*old(self) }),
            !old(self)._has@[14] ==> r is None && *final(self) == *old(self),
    {
        if self._has.swift_prefix() {
            Some(&mut self.swift_prefix)
        } else {
            None
        }
    }

    ///Set the value and presence of `swift_prefix`
    #[inline]
    pub fn set_swift_prefix(&mut self, value: String) -> (r: &mut Self)
        ensures
            r._has@ == old(self)._has@.update(14, true),
            *r == (FileOptions { swift_prefix: value, _has: r._has, ..*old(self) }),
            *final(self) == *final(r),
    {
        self._has.set_swift_prefix();
        self.swift_prefix = value;
        self
    }

    ///Clear the presence of `swift_prefix`
    #[inline]
    pub fn clear_swift_prefix(&mut self) -> (r: &mut Self)
        ensures
            r._has@ == old(self)._has@.update(14, false),
            *r == (FileOptions { _has: r._has, ..*old(self) }),
            *final(self) == *final(r),
    {
        self._has.clear_swift_prefix();
        self
    }

    ///Take the value of `swift_prefix` and clear its presence
    #[inline]
    pub fn take_swift_prefix(&mut self) -> (r: Option<String>)
        ensures
            r == (if old(self)._has@[14] {
                Some(old(self).swift_prefix)
            } else {
                None
            }),
            final(self)._has@ == old(self)._has@.update(14, false),
            old(self)._has@[14] ==> final(self).swift_prefix@ == Seq::<char>::empty(),
            !old(self)._has@[14] ==> final(self).swift_prefix == old(self).swift_prefix,
            *final(self) == (FileOptions { swift_prefix: final(self).swift_prefix, _has: final(self)._has, ..*old(self) }),
    {
        let val = if self._has.swift_prefix() {
            let mut v: String = String::new();
            std::mem::swap(&mut self.swift_prefix, &mut v);
            Some(v)
        } else {
            None
        };
        self._has.clear_swift_prefix();
        val
    }

    ///Builder method that sets the value of `swift_prefix`. Useful for initializing the message.
    #[inline]
    pub fn init_swift_prefix(self, value: String) -> (r: Self)
        ensures
            r._has@ == self._has@.update(14, true),
            r == (FileOptions { swift_prefix: value, _has: r._has, ..self }),
    {
        let mut s = self;
        s.set_swift_prefix(value);
        s
    }

    ///Return a reference to `php_class_prefix` as an `Option`
    #[inline]
    pub fn php_class_prefix(&self) -> (r: Option<&String>)
        ensures
            r == (if self._has@[15] {
                Some(&self.php_class_prefix)
            } else {
                None
            }),
    {
        if self._has.php_class_prefix() {
            Some(&self.php_class_prefix)
        } else {
            None
        }
    }

    ///Return a mutable reference to `php_class_prefix` as an `Option`
    #[inline]
    pub fn mut_php_class_prefix(&mut self) -> (r: Option<&mut String>)
        ensures
            old(self)._has@[15] ==> r is Some && *r->0 == old(self).php_class_prefix && final(self).php_class_prefix
                == *final(r->0) && *final(self) == (FileOptions { php_class_prefix: final(self).php_class_prefix, ..*old(self) }),
            !old(self)._has@[15] ==> r is None && *final(self) == *old(self),
    {
        if self._has.php_class_prefix() {
            Some(&mut self.php_class_prefix)
        } else {
            None
        }
    }

    ///Set the value and presence of `php_class_prefix`
    #[inline]
    pub fn set_php_class_prefix(&mut self, value: String) -> (r: &mut Self)
        ensures
            r._has@ == old(self)._has@.update(15, true),
            *r == (FileOptions { php_class_prefix: value, _has: r._has, ..*old(self) }),
            *final(self) == *final(r),
    {
        self._has.set_php_class_prefix();
        self.php_class_prefix = value;
        self
    }

    ///Clear the presence of `php_class_prefix`
    #[inline]
    pub fn clear_php_class_prefix(&mut self) -> (r: &mut Self)
        ensures
            r._has@ == old(self)._has@.update(15, false),
            *r == (FileOptions { _has: r._has, ..*old(self) }),
            *final(self) == *final(r),
    {
        self._has.clear_php_class_prefix();
        self
    }

    ///Take the value of `php_class_prefix` and clear its presence
    #[inline]
    pub fn take_php_class_prefix(&mut self) -> (r: Option<String>)
        ensures
            r == (if old(self)._has@[15] {
                Some(old(self).php_class_prefix)
            } else {
                None
            }),
            final(self)._has@ == old(self)._has@.update(15, false),
            old(self)._has@[15] ==> final(self).php_class_prefix@ == Seq::<char>::empty(),
            !old(self)._has@[15] ==> final(self).php_class_prefix == old(self).php_class_prefix,
            *final(self) == (FileOptions { php_class_prefix: final(self).php_class_prefix, _has: final(self)._has, ..*old(self) }),
    {
        let val = if self._has.php_class_prefix() {
            let mut v: String = String::new();
            std::mem::swap(&mut self.php_class_prefix, &mut v);
            Some(v)
        } else {
            None
        };
        self._has.clear_php_class_prefix();
        val
    }

    ///Builder method that sets the value of `php_class_prefix`. Useful for initializing the message.
    #[inline]
    pub fn init_php_class_prefix(self, value: String) -> (r: Self)
        ensures
            r._has@ == self._has@.update(15, true),
            r == (FileOptions { php_class_prefix: value, _has: r._has, ..self }),
    {
        let mut s = self;
        s.set_php_class_prefix(value);
        s
    }

    ///Return a reference to `php_namespace` as an `Option`
    #[inline]
    pub fn php_namespace(&self) -> (r: Option<&String>)
        ensures
            r == (if self._has@[16] {
                Some(&self.php_namespace)
            } else {
                None
            }),
    {
        if self._has.php_namespace() {
            Some(&self.php_namespace)
        } else {
            None
        }
    }

    ///Return a mutable reference to `php_namespace` as an `Option`
    #[inline]
    pub fn mut_php_namespace(&mut self) -> (r: Option<&mut String>)
        ensures
            old(self)._has@[16] ==> r is Some && *r->0 == old(self).php_namespace && final(self).php_namespace
                == *final(r->0) && *final(self) == (FileOptions { php_namespace: final(self).php_namespace, ..*old(self) }),
            !old(self)._has@[16] ==> r is None && *final(self) == *old(self),
    {
        if self._has.php_namespace() {
            Some(&mut self.php_namespace)
        } else {
            None
        }
    }

    ///Set the value and presence of `php_namespace`
    #[inline]
    pub fn set_php_namespace(&mut self, value: String) -> (r: &mut Self)
        ensures
            r._has@ == old(self)._has@.update(16, true),
            *r == (FileOptions { php_namespace: value, _has: r._has, ..*old(self) }),
            *final(self) == *final(r),
    {
        self._has.set_php_namespace();
        self.php_namespace = value;
        self
    }

    ///Clear the presence of `php_namespace`
    #[inline]
    pub fn clear_php_namespace(&mut self) -> (r: &mut Self)
        ensures
            r._has@ == old(self)._has@.update(16, false),
            *r == (FileOptions { _has: r._has, ..*old(self) }),
            *final(self) == *final(r),
    {
        self._has.clear_php_namespace();
        self
    }

    ///Take the value of `php_namespace` and clear its presence
    #[inline]
    pub fn take_php_namespace(&mut self) -> (r: Option<String>)
        ensures
            r == (if old(self)._has@[16] {
                Some(old(self).php_namespace)
            } else {
                None
            }),
            final(self)._has@ == old(self)._has@.update(16, false),
            old(self)._has@[16] ==> final(self).php_namespace@ == Seq::<char>::empty(),
            !old(self)._has@[16] ==> final(self).php_namespace == old(self).php_namespace,
            *final(self) == (FileOptions { php_namespace: final(self).php_namespace, _has: final(self)._has, ..*old(self) }),
    {
        let val = if self._has.php_namespace() {
            let mut v: String = String::new();
            std::mem::swap(&mut self.php_namespace, &mut v);
            Some(v)
        } else {
            None
        };
        self._has.clear_php_namespace();
        val
    }

    ///Builder method that sets the value of `php_namespace`. Useful for initializing the message.
    #[inline]
    pub fn init_php_namespace(self, value: String) -> (r: Self)
        ensures
            r._has@ == self._has@.update(16, true),
            r == (FileOptions { php_namespace: value, _has: r._has, ..self }),
    {
        let mut s = self;
        s.set_php_namespace(value);
        s
    }

    ///Return a reference to `php_metadata_namespace` as an `Option`
    #[inline]
    pub fn php_metadata_namespace(&self) -> (r: Option<&String>)
        ensures
            r == (if self._has@[17] {
                Some(&self.php_metadata_namespace)
            } else {
                None
            }),
    {
        if self._has.php_metadata_namespace() {
            Some(&self.php_metadata_namespace)
        } else {
            None
        }
    }

    ///Return a mutable reference to `php_metadata_namespace` as an `Option`
    #[inline]
    pub fn mut_php_metadata_namespace(&mut self) -> (r: Option<&mut String>)
        ensures
            old(self)._has@[17] ==> r is Some && *r->0 == old(self).php_metadata_namespace && final(self).php_metadata_namespace
                == *final(r->0) && *final(self) == (FileOptions { php_metadata_namespace: final(self).php_metadata_namespace, ..*old(self) }),
            !old(self)._has@[17] ==> r is None && *final(self) == *old(self),
    {
        if self._has.php_metadata_namespace() {
            Some(&mut self.php_metadata_namespace)
        } else {
            None
        }
    }

    ///Set the value and presence of `php_metadata_namespace`
    #[inline]
    pub fn set_php_metadata_namespace(&mut self, value: String) -> (r: &mut Self)
        ensures
            r._has@ == old(self)._has@.update(17, true),
            *r == (FileOptions { php_metadata_namespace: value, _has: r._has, ..*old(self) }),
            *final(self) == *final(r),
    {
        self._has.set_php_metadata_namespace();
        self.php_metadata_namespace = value;
        self
    }

    ///Clear the presence of `php_metadata_namespace`
    #[inline]
    pub fn clear_php_metadata_namespace(&mut self) -> (r: &mut Self)
        ensures
            r._has@ == old(self)._has@.update(17, false),
            *r == (FileOptions { _has: r._has, ..*old(self) }),
            *final(self) == *final(r),
    {
        self._has.clear_php_metadata_namespace();
        self
    }

    ///Take the value of `php_metadata_namespace` and clear its presence
    #[inline]
    pub fn take_php_metadata_namespace(&mut self) -> (r: Option<String>)
        ensures
            r == (if old(self)._has@[17] {
                Some(old(self).php_metadata_namespace)
            } else {
                None
            }),
            final(self)._has@ == old(self)._has@.update(17, false),
            old(self)._has@[17] ==> final(self).php_metadata_namespace@ == Seq::<char>::empty(),
            !old(self)._has@[17] ==> final(self).php_metadata_namespace == old(self).php_metadata_namespace,
            *final(self) == (FileOptions { php_metadata_namespace: final(self).php_metadata_namespace, _has: final(self)._has, ..*old(self) }),
    {
        let val = if self._has.php_metadata_namespace() {
            let mut v: String = String::new();
            std::mem::swap(&mut self.php_metadata_namespace, &mut v);
            Some(v)
        } else {
            None
        };
        self._has.clear_php_metadata_namespace();
        val
    }

    ///Builder method that sets the value of `php_metadata_namespace`. Useful for initializing the message.
    #[inline]
    pub fn init_php_metadata_namespace(self, value: String) -> (r: Self)
        ensures
            r._has@ == self._has@.update(17, true),
            r == (FileOptions { php_metadata_namespace: value, _has: r._has, ..self }),
    {
        let mut s = self;
        s.set_php_metadata_namespace(value);
        s
    }

    ///Return a reference to `ruby_package` as an `Option`
    #[inline]
    pub fn ruby_package(&self) -> (r: Option<&String>)
        ensures
            r == (if self._has@[18] {
                Some(&self.ruby_package)
            } else {
                None
            }),
    {
        if self._has.ruby_package() {
            Some(&self.ruby_package)
        } else {
            None
        }
    }

    ///Return a mutable reference to `ruby_package` as an `Option`
    #[inline]
    pub fn mut_ruby_package(&mut self) -> (r: Option<&mut String>)
        ensures
            old(self)._has@[18] ==> r is Some && *r->0 == old(self).ruby_package && final(self).ruby_package
                == *final(r->0) && *final(self) == (FileOptions { ruby_package: final(self).ruby_package, ..*old(self) }),
            !old(self)._has@[18] ==> r is None && *final(self) == *old(self),
    {
        if self._has.ruby_package() {
            Some(&mut self.ruby_package)
        } else {
            None
        }
    }

    ///Set the value and presence of `ruby_package`
    #[inline]
    pub fn set_ruby_package(&mut self, value: String) -> (r: &mut Self)
        ensures
            r._has@ == old(self)._has@.update(18, true),
            *r == (FileOptions { ruby_package: value, _has: r._has, ..*old(self) }),
            *final(self) == *final(r),
    {
        self._has.set_ruby_package();
        self.ruby_package = value;
        self
    }

    ///Clear the presence of `ruby_package`
    #[inline]
    pub fn clear_ruby_package(&mut self) -> (r: &mut Self)
        ensures
            r._has@ == old(self)._has@.update(18, false),
            *r == (FileOptions { _has: r._has, ..*old(self) }),
            *final(self) == *final(r),
    {
        self._has.clear_ruby_package();
        self
    }

    ///Take the value of `ruby_package` and clear its presence
    #[inline]
    pub fn take_ruby_package(&mut self) -> (r: Option<String>)
        ensures
            r == (if old(self)._has@[18] {
                Some(old(self).ruby_package)
            } else {
                None
            }),
            final(self)._has@ == old(self)._has@.update(18, false),
            old(self)._has@[18] ==> final(self).ruby_package@ == Seq::<char>::empty(),
            !old(self)._has@[18] ==> final(self).ruby_package == old(self).ruby_package,
            *final(self) == (FileOptions { ruby_package: final(self).ruby_package, _has: final(self)._has, ..*old(self) }),
    {
        let val = if self._has.ruby_package() {
            let mut v: String = String::new();
            std::mem::swap(&mut self.ruby_package, &mut v);
            Some(v)
        } else {
            None
        };
        self._has.clear_ruby_package();
        val
    }

    ///Builder method that sets the value of `ruby_package`. Useful for initializing the message.
    #[inline]
    pub fn init_ruby_package(self, value: String) -> (r: Self)
        ensures
            r._has@ == self._has@.update(18, true),
            r == (FileOptions { ruby_package: value, _has: r._has, ..self }),
    {
        let mut s = self;
        s.set_ruby_package(value);
        s
    }

    ///Return a reference to `features` as an `Option`
    #[inline]
    pub fn features(&self) -> (r: Option<&pb::FeatureSet_::FeatureSet>)
        ensures
            r == (if self._has@[19] {
                Some(&self.features)
            } else {
                None
            }),
    {
        if self._has.features() {
            Some(&self.features)
        } else {
            None
        }
    }

    ///Return a mutable reference to `features` as an `Option`
    #[inline]
    pub fn mut_features(&mut self) -> (r: Option<&mut pb::FeatureSet_::FeatureSet>)
        ensures
            old(self)._has@[19] ==> r is Some && *r->0 == old(self).features && final(self).features
                == *final(r->0) && *final(self) == (FileOptions { features: final(self).features, ..*old(self) }),
            !old(self)._has@[19] ==> r is None && *final(self) == *old(self),
    {
        if self._has.features() {
            Some(&mut self.features)
        } else {
            None
        }
    }

    ///Set the value and presence of `features`
    #[inline]
    pub fn set_features(&mut self, value: pb::FeatureSet_::FeatureSet) -> (r: &mut Self)
        ensures
            r._has@ == old(self)._has@.update(19, true),
            *r == (FileOptions { features: value, _has: r._has, ..*old(self) }),
            *final(self) == *final(r),
    {
        self._has.set_features();
        self.features = value;
        self
    }

    ///Clear the presence of `features`
    #[inline]
    pub fn clear_features(&mut self) -> (r: &mut Self)
        ensures
            r._has@ == old(self)._has@.update(19, false),
            *r == (FileOptions { _has: r._has, ..*old(self) }),
            *final(self) == *final(r),
    {
        self._has.clear_features();
        self
    }

    ///Take the value of `features` and clear its presence
    #[inline]
    pub fn take_features(&mut self) -> (r: Option<pb::FeatureSet_::FeatureSet>)
        ensures
            r == (if old(self)._has@[19] {
                Some(old(self).features)
            } else {
                None
            }),
            final(self)._has@ == old(self)._has@.update(19, false),
            old(self)._has@[19] ==> final(self).features@ == pb::FeatureSet_::FeatureSetModel::empty(),
            !old(self)._has@[19] ==> final(self).features == old(self).features,
            *final(self) == (FileOptions { features: final(self).features, _has: final(self)._has, ..*old(self) }),
    {
        let val = if self._has.features() {
            let mut v: pb::FeatureSet_::FeatureSet = pb::FeatureSet_::FeatureSet::default();
            std::mem::swap(&mut self.features, &mut v);
            Some(v)
        } else {
            None
        };
        self._has.clear_features();
        val
    }

    ///Builder method that sets the value of `features`. Useful for initializing the message.
    #[inline]
    pub fn init_features(self, value: pb::FeatureSet_::FeatureSet) -> (r: Self)
        ensures
            r._has@ == self._has@.update(19, true),
            r == (FileOptions { features: value, _has: r._has, ..self }),
    {
        let mut s = self;
        s.set_features(value);
        s
    }

    /// Merges the value of the field numbered `num`, with wire type `wt`, that starts at
    /// `pos` in `buf` into the message, and gives the position just past the value.
    pub fn merge_field(&mut self, num: u32, wt: u32, buf: &[u8], pos: usize) -> (r: Result<usize, DecodeError>)
        requires
            pos <= buf.len(),
        ensures
            match old(self)@.merge_field(num, wt, buf@.subrange(pos as int, buf.len() as int)) {
                Ok((m, k)) => r matches Ok(next) && next == pos + k && final(self)@ == m,
                Err(e) => r == Err::<usize, DecodeError>(e),
            },
            r matches Ok(next) ==> next <= buf.len(),
            r is Err ==> final(self)@ == old(self)@.merge_field_partial(num, wt, buf@.subrange(pos as int, buf.len() as int)),
    {
        proof {
            reveal(FileOptionsModel::merge_field);
        }
        match num {
            1 => self.merge_java_package_field(wt, buf, pos),
            8 => self.merge_java_outer_classname_field(wt, buf, pos),
            10 => self.merge_java_multiple_files_field(wt, buf, pos),
            20 => self.merge_java_generate_equals_and_hash_field(wt, buf, pos),
            27 => self.merge_java_string_check_utf8_field(wt, buf, pos),
            9 => self.merge_optimize_for_field(wt, buf, pos),
            11 => self.merge_go_package_field(wt, buf, pos),
            16 => self.merge_cc_generic_services_field(wt, buf, pos),
            17 => self.merge_java_generic_services_field(wt, buf, pos),
            18 => self.merge_py_generic_services_field(wt, buf, pos),
            23 => self.merge_deprecated_field(wt, buf, pos),
            31 => self.merge_cc_enable_arenas_field(wt, buf, pos),
            36 => self.merge_objc_class_prefix_field(wt, buf, pos),
            37 => self.merge_csharp_namespace_field(wt, buf, pos),
            39 => self.merge_swift_prefix_field(wt, buf, pos),
            40 => self.merge_php_class_prefix_field(wt, buf, pos),
            41 => self.merge_php_namespace_field(wt, buf, pos),
            44 => self.merge_php_metadata_namespace_field(wt, buf, pos),
            45 => self.merge_ruby_package_field(wt, buf, pos),
            50 => self.merge_features_field(wt, buf, pos),
            999 => self.merge_uninterpreted_option_field(wt, buf, pos),
            _ => skip_value(buf, pos, buf.len(), wt),
        }
    }

    /// Merges the value of a field numbered 1, starting at `pos` in `buf`, into `java_package`.
    fn merge_java_package_field(&mut self, wt: u32, buf: &[u8], pos: usize) -> (r: Result<usize, DecodeError>)
        requires
            pos <= buf.len(),
        ensures
            match old(self)@.merge_field(1, wt, buf@.subrange(pos as int, buf.len() as int)) {
                Ok((m, k)) => r matches Ok(next) && next == pos + k && final(self)@ == m,
                Err(e) => r == Err::<usize, DecodeError>(e),
            },
            r matches Ok(next) ==> next <= buf.len(),
            r is Err ==> final(self)@ == old(self)@.merge_field_partial(1, wt, buf@.subrange(pos as int, buf.len() as int)),
    {
        proof {
            reveal(FileOptionsModel::merge_field);
        }
        let ghost m0 = self@;
        let end = buf.len();
        match read_len(buf, pos, end) {
            Ok((a, b)) => match read_string(buf, a, b) {
                Ok(st) => {
                    let ghost t = st@;
                    self.java_package = st;
                    self._has.set_java_package();
                    proof {
                        assert(self@ =~= (FileOptionsModel { java_package: t, _has: m0._has.update(0, true), ..m0 }));
                    }
                    Ok(b)
                },
                Err(e) => Err(e),
            },
            Err(e) => Err(e),
        }
    }

    /// Merges the value of a field numbered 8, starting at `pos` in `buf`, into `java_outer_classname`.
    fn merge_java_outer_classname_field(&mut self, wt: u32, buf: &[u8], pos: usize) -> (r: Result<usize, DecodeError>)
        requires
            pos <= buf.len(),
        ensures
            match old(self)@.merge_field(8, wt, buf@.subrange(pos as int, buf.len() as int)) {
                Ok((m, k)) => r matches Ok(next) && next == pos + k && final(self)@ == m,
                Err(e) => r == Err::<usize, DecodeError>(e),
            },
            r matches Ok(next) ==> next <= buf.len(),
            r is Err ==> final(self)@ == old(self)@.merge_field_partial(8, wt, buf@.subrange(pos as int, buf.len() as int)),
    {
        proof {
            reveal(FileOptionsModel::merge_field);
        }
        let ghost m0 = self@;
        let end = buf.len();
        match read_len(buf, pos, end) {
            Ok((a, b)) => match read_string(buf, a, b) {
                Ok(st) => {
                    let ghost t = st@;
                    self.java_outer_classname = st;
                    self._has.set_java_outer_classname();
                    proof {
                        assert(self@ =~= (FileOptionsModel { java_outer_classname: t, _has: m0._has.update(1, true), ..m0 }));
                    }
                    Ok(b)
                },
                Err(e) => Err(e),
            },
            Err(e) => Err(e),
        }
    }

    /// Merges the value of a field numbered 10, starting at `pos` in `buf`, into `java_multiple_files`.
    fn merge_java_multiple_files_field(&mut self, wt: u32, buf: &[u8], pos: usize) -> (r: Result<usize, DecodeError>)
        requires
            pos <= buf.len(),
        ensures
            match old(self)@.merge_field(10, wt, buf@.subrange(pos as int, buf.len() as int)) {
                Ok((m, k)) => r matches Ok(next) && next == pos + k && final(self)@ == m,
                Err(e) => r == Err::<usize, DecodeError>(e),
            },
            r matches Ok(next) ==> next <= buf.len(),
            r is Err ==> final(self)@ == old(self)@.merge_field_partial(10, wt, buf@.subrange(pos as int, buf.len() as int)),
    {
        proof {
            reveal(FileOptionsModel::merge_field);
        }
        let ghost m0 = self@;
        let end = buf.len();
        match read_varint(buf, pos, end) {
            Ok((v, next)) => {
                self.java_multiple_files = v != 0;
                self._has.set_java_multiple_files();
                proof {
                    assert(self@ =~= (FileOptionsModel { java_multiple_files: v != 0, _has: m0._has.update(2, true), ..m0 }));
                }
                Ok(next)
            },
            Err(e) => Err(e),
        }
    }

    /// Merges the value of a field numbered 20, starting at `pos` in `buf`, into `java_generate_equals_and_hash`.
    fn merge_java_generate_equals_and_hash_field(&mut self, wt: u32, buf: &[u8], pos: usize) -> (r: Result<usize, DecodeError>)
        requires
            pos <= buf.len(),
        ensures
            match old(self)@.merge_field(20, wt, buf@.subrange(pos as int, buf.len() as int)) {
                Ok((m, k)) => r matches Ok(next) && next == pos + k && final(self)@ == m,
                Err(e) => r == Err::<usize, DecodeError>(e),
            },
            r matches Ok(next) ==> next <= buf.len(),
            r is Err ==> final(self)@ == old(self)@.merge_field_partial(20, wt, buf@.subrange(pos as int, buf.len() as int)),
    {
        proof {
            reveal(FileOptionsModel::merge_field);
        }
        let ghost m0 = self@;
        let end = buf.len();
        match read_varint(buf, pos, end) {
            Ok((v, next)) => {
                self.java_generate_equals_and_hash = v != 0;
                self._has.set_java_generate_equals_and_hash();
                proof {
                    assert(self@ =~= (FileOptionsModel { java_generate_equals_and_hash: v != 0, _has: m0._has.update(3, true), ..m0 }));
                }
                Ok(next)
            },
            Err(e) => Err(e),
        }
    }

    /// Merges the value of a field numbered 27, starting at `pos` in `buf`, into `java_string_check_utf8`.
    fn merge_java_string_check_utf8_field(&mut self, wt: u32, buf: &[u8], pos: usize) -> (r: Result<usize, DecodeError>)
        requires
            pos <= buf.len(),
        ensures
            match old(self)@.merge_field(27, wt, buf@.subrange(pos as int, buf.len() as int)) {
                Ok((m, k)) => r matches Ok(next) && next == pos + k && final(self)@ == m,
                Err(e) => r == Err::<usize, DecodeError>(e),
            },
            r matches Ok(next) ==> next <= buf.len(),
            r is Err ==> final(self)@ == old(self)@.merge_field_partial(27, wt, buf@.subrange(pos as int, buf.len() as int)),
    {
        proof {
            reveal(FileOptionsModel::merge_field);
        }
        let ghost m0 = self@;
        let end = buf.len();
        match read_varint(buf, pos, end) {
            Ok((v, next)) => {
                self.java_string_check_utf8 = v != 0;
                self._has.set_java_string_check_utf8();
                proof {
                    assert(self@ =~= (FileOptionsModel { java_string_check_utf8: v != 0, _has: m0._has.update(4, true), ..m0 }));
                }
                Ok(next)
            },
            Err(e) => Err(e),
        }
    }

    /// Merges the value of a field numbered 9, starting at `pos` in `buf`, into `optimize_for`.
    fn merge_optimize_for_field(&mut self, wt: u32, buf: &[u8], pos: usize) -> (r: Result<usize, DecodeError>)
        requires
            pos <= buf.len(),
        ensures
            match old(self)@.merge_field(9, wt, buf@.subrange(pos as int, buf.len() as int)) {
                Ok((m, k)) => r matches Ok(next) && next == pos + k && final(self)@ == m,
                Err(e) => r == Err::<usize, DecodeError>(e),
            },
            r matches Ok(next) ==> next <= buf.len(),
            r is Err ==> final(self)@ == old(self)@.merge_field_partial(9, wt, buf@.subrange(pos as int, buf.len() as int)),
    {
        proof {
            reveal(FileOptionsModel::merge_field);
        }
        let ghost m0 = self@;
        let end = buf.len();
        match read_varint(buf, pos, end) {
            Ok((v, next)) => {
                self.optimize_for = pb::FileOptions_::OptimizeMode(to_i32(v));
                self._has.set_optimize_for();
                proof {
                    assert(self@ =~= (FileOptionsModel { optimize_for: pb::FileOptions_::OptimizeMode(varint_as_i32(v)), _has: m0._has.update(5, true), ..m0 }));
                }
                Ok(next)
            },
            Err(e) => Err(e),
        }
    }

    /// Merges the value of a field numbered 11, starting at `pos` in `buf`, into `go_package`.
    fn merge_go_package_field(&mut self, wt: u32, buf: &[u8], pos: usize) -> (r: Result<usize, DecodeError>)
        requires
            pos <= buf.len(),
        ensures
            match old(self)@.merge_field(11, wt, buf@.subrange(pos as int, buf.len() as int)) {
                Ok((m, k)) => r matches Ok(next) && next == pos + k && final(self)@ == m,
                Err(e) => r == Err::<usize, DecodeError>(e),
            },
            r matches Ok(next) ==> next <= buf.len(),
            r is Err ==> final(self)@ == old(self)@.merge_field_partial(11, wt, buf@.subrange(pos as int, buf.len() as int)),
    {
        proof {
            reveal(FileOptionsModel::merge_field);
        }
        let ghost m0 = self@;
        let end = buf.len();
        match read_len(buf, pos, end) {
            Ok((a, b)) => match read_string(buf, a, b) {
                Ok(st) => {
                    let ghost t = st@;
                    self.go_package = st;
                    self._has.set_go_package();
                    proof {
                        assert(self@ =~= (FileOptionsModel { go_package: t, _has: m0._has.update(6, true), ..m0 }));
                    }
                    Ok(b)
                },
                Err(e) => Err(e),
            },
            Err(e) => Err(e),
        }
    }

    /// Merges the value of a field numbered 16, starting at `pos` in `buf`, into `cc_generic_services`.
    fn merge_cc_generic_services_field(&mut self, wt: u32, buf: &[u8], pos: usize) -> (r: Result<usize, DecodeError>)
        requires
            pos <= buf.len(),
        ensures
            match old(self)@.merge_field(16, wt, buf@.subrange(pos as int, buf.len() as int)) {
                Ok((m, k)) => r matches Ok(next) && next == pos + k && final(self)@ == m,
                Err(e) => r == Err::<usize, DecodeError>(e),
            },
            r matches Ok(next) ==> next <= buf.len(),
            r is Err ==> final(self)@ == old(self)@.merge_field_partial(16, wt, buf@.subrange(pos as int, buf.len() as int)),
    {
        proof {
            reveal(FileOptionsModel::merge_field);
        }
        let ghost m0 = self@;
        let end = buf.len();
        match read_varint(buf, pos, end) {
            Ok((v, next)) => {
                self.cc_generic_services = v != 0;
                self._has.set_cc_generic_services();
                proof {
                    assert(self@ =~= (FileOptionsModel { cc_generic_services: v != 0, _has: m0._has.update(7, true), ..m0 }));
                }
                Ok(next)
            },
            Err(e) => Err(e),
        }
    }

    /// Merges the value of a field numbered 17, starting at `pos` in `buf`, into `java_generic_services`.
    fn merge_java_generic_services_field(&mut self, wt: u32, buf: &[u8], pos: usize) -> (r: Result<usize, DecodeError>)
        requires
            pos <= buf.len(),
        ensures
            match old(self)@.merge_field(17, wt, buf@.subrange(pos as int, buf.len() as int)) {
                Ok((m, k)) => r matches Ok(next) && next == pos + k && final(self)@ == m,
                Err(e) => r == Err::<usize, DecodeError>(e),
            },
            r matches Ok(next) ==> next <= buf.len(),
            r is Err ==> final(self)@ == old(self)@.merge_field_partial(17, wt, buf@.subrange(pos as int, buf.len() as int)),
    {
        proof {
            reveal(FileOptionsModel::merge_field);
        }
        let ghost m0 = self@;
        let end = buf.len();
        match read_varint(buf, pos, end) {
            Ok((v, next)) => {
                self.java_generic_services = v != 0;
                self._has.set_java_generic_services();
                proof {
                    assert(self@ =~= (FileOptionsModel { java_generic_services: v != 0, _has: m0._has.update(8, true), ..m0 }));
                }
                Ok(next)
            },
            Err(e) => Err(e),
        }
    }

    /// Merges the value of a field numbered 18, starting at `pos` in `buf`, into `py_generic_services`.
    fn merge_py_generic_services_field(&mut self, wt: u32, buf: &[u8], pos: usize) -> (r: Result<usize, DecodeError>)
        requires
            pos <= buf.len(),
        ensures
            match old(self)@.merge_field(18, wt, buf@.subrange(pos as int, buf.len() as int)) {
                Ok((m, k)) => r matches Ok(next) && next == pos + k && final(self)@ == m,
                Err(e) => r == Err::<usize, DecodeError>(e),
            },
            r matches Ok(next) ==> next <= buf.len(),
            r is Err ==> final(self)@ == old(self)@.merge_field_partial(18, wt, buf@.subrange(pos as int, buf.len() as int)),
    {
        proof {
            reveal(FileOptionsModel::merge_field);
        }
        let ghost m0 = self@;
        let end = buf.len();
        match read_varint(buf, pos, end) {
            Ok((v, next)) => {
                self.py_generic_services = v != 0;
                self._has.set_py_generic_services();
                proof {
                    assert(self@ =~= (FileOptionsModel { py_generic_services: v != 0, _has: m0._has.update(9, true), ..m0 }));
                }
                Ok(next)
            },
            Err(e) => Err(e),
        }
    }

    /// Merges the value of a field numbered 23, starting at `pos` in `buf`, into `deprecated`.
    fn merge_deprecated_field(&mut self, wt: u32, buf: &[u8], pos: usize) -> (r: Result<usize, DecodeError>)
        requires
            pos <= buf.len(),
        ensures
            match old(self)@.merge_field(23, wt, buf@.subrange(pos as int, buf.len() as int)) {
                Ok((m, k)) => r matches Ok(next) && next == pos + k && final(self)@ == m,
                Err(e) => r == Err::<usize, DecodeError>(e),
            },
            r matches Ok(next) ==> next <= buf.len(),
            r is Err ==> final(self)@ == old(self)@.merge_field_partial(23, wt, buf@.subrange(pos as int, buf.len() as int)),
    {
        proof {
            reveal(FileOptionsModel::merge_field);
        }
        let ghost m0 = self@;
        let end = buf.len();
        match read_varint(buf, pos, end) {
            Ok((v, next)) => {
                self.deprecated = v != 0;
                self._has.set_deprecated();
                proof {
                    assert(self@ =~= (FileOptionsModel { deprecated: v != 0, _has: m0._has.update(10, true), ..m0 }));
                }
                Ok(next)
            },
            Err(e) => Err(e),
        }
    }

    /// Merges the value of a field numbered 31, starting at `pos` in `buf`, into `cc_enable_arenas`.
    fn merge_cc_enable_arenas_field(&mut self, wt: u32, buf: &[u8], pos: usize) -> (r: Result<usize, DecodeError>)
        requires
            pos <= buf.len(),
        ensures
            match old(self)@.merge_field(31, wt, buf@.subrange(pos as int, buf.len() as int)) {
                Ok((m, k)) => r matches Ok(next) && next == pos + k && final(self)@ == m,
                Err(e) => r == Err::<usize, DecodeError>(e),
            },
            r matches Ok(next) ==> next <= buf.len(),
            r is Err ==> final(self)@ == old(self)@.merge_field_partial(31, wt, buf@.subrange(pos as int, buf.len() as int)),
    {
        proof {
            reveal(FileOptionsModel::merge_field);
        }
        let ghost m0 = self@;
        let end = buf.len();
        match read_varint(buf, pos, end) {
            Ok((v, next)) => {
                self.cc_enable_arenas = v != 0;
                self._has.set_cc_enable_arenas();
                proof {
                    assert(self@ =~= (FileOptionsModel { cc_enable_arenas: v != 0, _has: m0._has.update(11, true), ..m0 }));
                }
                Ok(next)
            },
            Err(e) => Err(e),
        }
    }

    /// Merges the value of a field numbered 36, starting at `pos` in `buf`, into `objc_class_prefix`.
    fn merge_objc_class_prefix_field(&mut self, wt: u32, buf: &[u8], pos: usize) -> (r: Result<usize, DecodeError>)
        requires
            pos <= buf.len(),
        ensures
            match old(self)@.merge_field(36, wt, buf@.subrange(pos as int, buf.len() as int)) {
                Ok((m, k)) => r matches Ok(next) && next == pos + k && final(self)@ == m,
                Err(e) => r == Err::<usize, DecodeError>(e),
            },
            r matches Ok(next) ==> next <= buf.len(),
            r is Err ==> final(self)@ == old(self)@.merge_field_partial(36, wt, buf@.subrange(pos as int, buf.len() as int)),
    {
        proof {
            reveal(FileOptionsModel::merge_field);
        }
        let ghost m0 = self@;
        let end = buf.len();
        match read_len(buf, pos, end) {
            Ok((a, b)) => match read_string(buf, a, b) {
                Ok(st) => {
                    let ghost t = st@;
                    self.objc_class_prefix = st;
                    self._has.set_objc_class_prefix();
                    proof {
                        assert(self@ =~= (FileOptionsModel { objc_class_prefix: t, _has: m0._has.update(12, true), ..m0 }));
                    }
                    Ok(b)
                },
                Err(e) => Err(e),
            },
            Err(e) => Err(e),
        }
    }

    /// Merges the value of a field numbered 37, starting at `pos` in `buf`, into `csharp_namespace`.
    fn merge_csharp_namespace_field(&mut self, wt: u32, buf: &[u8], pos: usize) -> (r: Result<usize, DecodeError>)
        requires
            pos <= buf.len(),
        ensures
            match old(self)@.merge_field(37, wt, buf@.subrange(pos as int, buf.len() as int)) {
                Ok((m, k)) => r matches Ok(next) && next == pos + k && final(self)@ == m,
                Err(e) => r == Err::<usize, DecodeError>(e),
            },
            r matches Ok(next) ==> next <= buf.len(),
            r is Err ==> final(self)@ == old(self)@.merge_field_partial(37, wt, buf@.subrange(pos as int, buf.len() as int)),
    {
        proof {
            reveal(FileOptionsModel::merge_field);
        }
        let ghost m0 = self@;
        let end = buf.len();
        match read_len(buf, pos, end) {
            Ok((a, b)) => match read_string(buf, a, b) {
                Ok(st) => {
                    let ghost t = st@;
                    self.csharp_namespace = st;
                    self._has.set_csharp_namespace();
                    proof {
                        assert(self@ =~= (FileOptionsModel { csharp_namespace: t, _has: m0._has.update(13, true), ..m0 }));
                    }
                    Ok(b)
                },
                Err(e) => Err(e),
            },
            Err(e) => Err(e),
        }
    }

    /// Merges the value of a field numbered 39, starting at `pos` in `buf`, into `swift_prefix`.
    fn merge_swift_prefix_field(&mut self, wt: u32, buf: &[u8], pos: usize) -> (r: Result<usize, DecodeError>)
        requires
            pos <= buf.len(),
        ensures
            match old(self)@.merge_field(39, wt, buf@.subrange(pos as int, buf.len() as int)) {
                Ok((m, k)) => r matches Ok(next) && next == pos + k && final(self)@ == m,
                Err(e) => r == Err::<usize, DecodeError>(e),
            },
            r matches Ok(next) ==> next <= buf.len(),
            r is Err ==> final(self)@ == old(self)@.merge_field_partial(39, wt, buf@.subrange(pos as int, buf.len() as int)),
    {
        proof {
            reveal(FileOptionsModel::merge_field);
        }
        let ghost m0 = self@;
        let end = buf.len();
        match read_len(buf, pos, end) {
            Ok((a, b)) => match read_string(buf, a, b) {
                Ok(st) => {
                    let ghost t = st@;
                    self.swift_prefix = st;
                    self._has.set_swift_prefix();
                    proof {
                        assert(self@ =~= (FileOptionsModel { swift_prefix: t, _has: m0._has.update(14, true), ..m0 }));
                    }
                    Ok(b)
                },
                Err(e) => Err(e),
            },
            Err(e) => Err(e),
        }
    }

    /// Merges the value of a field numbered 40, starting at `pos` in `buf`, into `php_class_prefix`.
    fn merge_php_class_prefix_field(&mut self, wt: u32, buf: &[u8], pos: usize) -> (r: Result<usize, DecodeError>)
        requires
            pos <= buf.len(),
        ensures
            match old(self)@.merge_field(40, wt, buf@.subrange(pos as int, buf.len() as int)) {
                Ok((m, k)) => r matches Ok(next) && next == pos + k && final(self)@ == m,
                Err(e) => r == Err::<usize, DecodeError>(e),
            },
            r matches Ok(next) ==> next <= buf.len(),
            r is Err ==> final(self)@ == old(self)@.merge_field_partial(40, wt, buf@.subrange(pos as int, buf.len() as int)),
    {
        proof {
            reveal(FileOptionsModel::merge_field);
        }
        let ghost m0 = self@;
        let end = buf.len();
        match read_len(buf, pos, end) {
            Ok((a, b)) => match read_string(buf, a, b) {
                Ok(st) => {
                    let ghost t = st@;
                    self.php_class_prefix = st;
                    self._has.set_php_class_prefix();
                    proof {
                        assert(self@ =~= (FileOptionsModel { php_class_prefix: t, _has: m0._has.update(15, true), ..m0 }));
                    }
                    Ok(b)
                },
                Err(e) => Err(e),
            },
            Err(e) => Err(e),
        }
    }

    /// Merges the value of a field numbered 41, starting at `pos` in `buf`, into `php_namespace`.
    fn merge_php_namespace_field(&mut self, wt: u32, buf: &[u8], pos: usize) -> (r: Result<usize, DecodeError>)
        requires
            pos <= buf.len(),
        ensures
            match old(self)@.merge_field(41, wt, buf@.subrange(pos as int, buf.len() as int)) {
                Ok((m, k)) => r matches Ok(next) && next == pos + k && final(self)@ == m,
                Err(e) => r == Err::<usize, DecodeError>(e),
            },
            r matches Ok(next) ==> next <= buf.len(),
            r is Err ==> final(self)@ == old(self)@.merge_field_partial(41, wt, buf@.subrange(pos as int, buf.len() as int)),
    {
        proof {
            reveal(FileOptionsModel::merge_field);
        }
        let ghost m0 = self@;
        let end = buf.len();
        match read_len(buf, pos, end) {
            Ok((a, b)) => match read_string(buf, a, b) {
                Ok(st) => {
                    let ghost t = st@;
                    self.php_namespace = st;
                    self._has.set_php_namespace();
                    proof {
                        assert(self@ =~= (FileOptionsModel { php_namespace: t, _has: m0._has.update(16, true), ..m0 }));
                    }
                    Ok(b)
                },
                Err(e) => Err(e),
            },
            Err(e) => Err(e),
        }
    }

    /// Merges the value of a field numbered 44, starting at `pos` in `buf`, into `php_metadata_namespace`.
    fn merge_php_metadata_namespace_field(&mut self, wt: u32, buf: &[u8], pos: usize) -> (r: Result<usize, DecodeError>)
        requires
            pos <= buf.len(),
        ensures
            match old(self)@.merge_field(44, wt, buf@.subrange(pos as int, buf.len() as int)) {
                Ok((m, k)) => r matches Ok(next) && next == pos + k && final(self)@ == m,
                Err(e) => r == Err::<usize, DecodeError>(e),
            },
            r matches Ok(next) ==> next <= buf.len(),
            r is Err ==> final(self)@ == old(self)@.merge_field_partial(44, wt, buf@.subrange(pos as int, buf.len() as int)),
    {
        proof {
            reveal(FileOptionsModel::merge_field);
        }
        let ghost m0 = self@;
        let end = buf.len();
        match read_len(buf, pos, end) {
            Ok((a, b)) => match read_string(buf, a, b) {
                Ok(st) => {
                    let ghost t = st@;
                    self.php_metadata_namespace = st;
                    self._has.set_php_metadata_namespace();
                    proof {
                        assert(self@ =~= (FileOptionsModel { php_metadata_namespace: t, _has: m0._has.update(17, true), ..m0 }));
                    }
                    Ok(b)
                },
                Err(e) => Err(e),
            },
            Err(e) => Err(e),
        }
    }

    /// Merges the value of a field numbered 45, starting at `pos` in `buf`, into `ruby_package`.
    fn merge_ruby_package_field(&mut self, wt: u32, buf: &[u8], pos: usize) -> (r: Result<usize, DecodeError>)
        requires
            pos <= buf.len(),
        ensures
            match old(self)@.merge_field(45, wt, buf@.subrange(pos as int, buf.len() as int)) {
                Ok((m, k)) => r matches Ok(next) && next == pos + k && final(self)@ == m,
                Err(e) => r == Err::<usize, DecodeError>(e),
            },
            r matches Ok(next) ==> next <= buf.len(),
            r is Err ==> final(self)@ == old(self)@.merge_field_partial(45, wt, buf@.subrange(pos as int, buf.len() as int)),
    {
        proof {
            reveal(FileOptionsModel::merge_field);
        }
        let ghost m0 = self@;
        let end = buf.len();
        match read_len(buf, pos, end) {
            Ok((a, b)) => match read_string(buf, a, b) {
                Ok(st) => {
                    let ghost t = st@;
                    self.ruby_package = st;
                    self._has.set_ruby_package();
                    proof {
                        assert(self@ =~= (FileOptionsModel { ruby_package: t, _has: m0._has.update(18, true), ..m0 }));
                    }
                    Ok(b)
                },
                Err(e) => Err(e),
            },
            Err(e) => Err(e),
        }
    }

    /// Merges the value of a field numbered 50, starting at `pos` in `buf`, into `features`.
    fn merge_features_field(&mut self, wt: u32, buf: &[u8], pos: usize) -> (r: Result<usize, DecodeError>)
        requires
            pos <= buf.len(),
        ensures
            match old(self)@.merge_field(50, wt, buf@.subrange(pos as int, buf.len() as int)) {
                Ok((m, k)) => r matches Ok(next) && next == pos + k && final(self)@ == m,
                Err(e) => r == Err::<usize, DecodeError>(e),
            },
            r matches Ok(next) ==> next <= buf.len(),
            r is Err ==> final(self)@ == old(self)@.merge_field_partial(50, wt, buf@.subrange(pos as int, buf.len() as int)),
    {
        proof {
            reveal(FileOptionsModel::merge_field);
        }
        let ghost m0 = self@;
        let end = buf.len();
        match read_varint(buf, pos, end) {
            Ok((l, q)) => {
                proof {
                    assert(buf@.subrange(pos as int, end as int).subrange((q - pos) as int, (end - pos) as int) =~= buf@.subrange(q as int, end as int));
                }
                match self.features.decode(buf, q, l) {
                    Ok(next) => {
                        self._has.set_features();
                        proof {
                            assert(self@ =~= (FileOptionsModel { features: self.features@, _has: m0._has.update(19, true), ..m0 }));
                        }
                        Ok(next)
                    },
                    Err(e) => {
                        proof {
                            assert(self@ =~= (FileOptionsModel { features: self.features@, ..m0 }));
                        }
                        Err(e)
                    },
                }
            },
            Err(e) => Err(e),
        }
    }

    /// Merges the value of a field numbered 999, starting at `pos` in `buf`, into `uninterpreted_option`.
    fn merge_uninterpreted_option_field(&mut self, wt: u32, buf: &[u8], pos: usize) -> (r: Result<usize, DecodeError>)
        requires
            pos <= buf.len(),
        ensures
            match old(self)@.merge_field(999, wt, buf@.subrange(pos as int, buf.len() as int)) {
                Ok((m, k)) => r matches Ok(next) && next == pos + k && final(self)@ == m,
                Err(e) => r == Err::<usize, DecodeError>(e),
            },
            r matches Ok(next) ==> next <= buf.len(),
            r is Err ==> final(self)@ == old(self)@.merge_field_partial(999, wt, buf@.subrange(pos as int, buf.len() as int)),
    {
        proof {
            reveal(FileOptionsModel::merge_field);
        }
        let ghost m0 = self@;
        let end = buf.len();
        match read_varint(buf, pos, end) {
            Ok((l, q)) => {
                proof {
                    assert(buf@.subrange(pos as int, end as int).subrange((q - pos) as int, (end - pos) as int) =~= buf@.subrange(q as int, end as int));
                }
                let mut v = pb::UninterpretedOption_::UninterpretedOption::default();
                match v.decode(buf, q, l) {
                    Ok(next) => {
                        let ghost vm = v@;
                        self.uninterpreted_option.push(v);
                        proof {
                            assert(self@ =~= (FileOptionsModel { uninterpreted_option: m0.uninterpreted_option.push(vm), ..m0 }));
                        }
                        Ok(next)
                    },
                    Err(e) => Err(e),
                }
            },
            Err(e) => Err(e),
        }
    }

    /// Reads fields from `buf`, from `start` on, into the message while fewer than `len`
    /// bytes have been read, and gives the position just past the last field read.
    #[verifier::rlimit(40)]
    pub fn decode(&mut self, buf: &[u8], start: usize, len: u64) -> (r: Result<usize, DecodeError>)
        requires
            start <= buf.len(),
        ensures
            match old(self)@.decode_stream(buf@.subrange(start as int, buf.len() as int), len as int) {
                Ok((m, c)) => r matches Ok(next) && next == start + c && final(self)@ == m,
                Err(e) => r == Err::<usize, DecodeError>(e),
            },
            r matches Ok(next) ==> next <= buf.len(),
            r is Err ==> final(self)@ == old(self)@.until_error_stream(
                buf@.subrange(start as int, buf.len() as int),
                len as int,
            ),
    {
        let mut pos = start;
        while ((pos - start) as u64) < len
            invariant
                start <= pos <= buf.len(),
                old(self)@.decode_stream(buf@.subrange(start as int, buf.len() as int), len as int)
                    == shift_consumed(
                    self@.decode_stream(buf@.subrange(pos as int, buf.len() as int), len - (pos - start)),
                    (pos - start) as nat,
                ),
                old(self)@.until_error_stream(buf@.subrange(start as int, buf.len() as int), len as int)
                    == self@.until_error_stream(buf@.subrange(pos as int, buf.len() as int), len - (pos - start)),
            decreases buf.len() - pos,
        {
            let ghost s = buf@.subrange(pos as int, buf.len() as int);
            let (num, wt, p) = match read_tag(buf, pos, buf.len()) {
                Ok(x) => x,
                Err(e) => return Err(e),
            };
            if num == 0 {
                return Err(DecodeError::ZeroField);
            }
            proof {
                lemma_tag_bounds(s);
                assert(s.subrange((p - pos) as int, s.len() as int) =~= buf@.subrange(p as int, buf.len() as int));
            }
            let next = match self.merge_field(num, wt, buf, p) {
                Ok(x) => x,
                Err(e) => return Err(e),
            };
            proof {
                let rest = buf@.subrange(p as int, buf.len() as int);
                assert(rest.subrange((next - p) as int, rest.len() as int) =~= buf@.subrange(
                    next as int,
                    buf.len() as int,
                ));
            }
            pos = next;
        }
        Ok(pos)
    }

    /// Merges the fields encoded in `bytes` into the message.
    pub fn decode_from_bytes(&mut self, bytes: &[u8]) -> (r: Result<(), DecodeError>)
        ensures
            match old(self)@.merge_from(bytes@) {
                Ok(m) => r is Ok && final(self)@ == m,
                Err(e) => r == Err::<(), DecodeError>(e),
            },
            r is Err ==> final(self)@ == old(self)@.merge_until_error(bytes@),
    {
        assert(bytes@.subrange(0, bytes@.len() as int) =~= bytes@);
        match self.decode(bytes, 0, bytes.len() as u64) {
            Ok(_) => Ok(()),
            Err(e) => Err(e),
        }
    }
}

} // verus!
