//! `FieldOptions`, with its nested types and its presence bits.
use vstd::prelude::*;
use vstd::utf8::{decode_utf8, valid_utf8};
use crate::bits::{flags_of, lemma_flags_clear, lemma_flags_get, lemma_flags_set, lemma_flags_zero};
use crate::descriptor::google_::protobuf_ as pb;
use crate::wire::{
    copy_bytes, lemma_len_bounds, lemma_varint_bounds, lemma_tag_bounds, lemma_values_prefix, parse_fixed64, parse_len, parse_packed_i32,
    parse_string, parse_tag, parse_varint, read_fixed64, read_len, read_packed_i32, read_string,
    read_tag, read_varint, shift_consumed, skip_len, skip_value, to_i32, to_i64, varint_as_i32,
    varint_as_i64, DecodeError, WIRE_TYPE_LEN,
};

pub mod EditionDefault_;
pub use EditionDefault_::EditionDefault;
pub mod FeatureSupport_;
pub use FeatureSupport_::FeatureSupport;

verus! {

#[derive(Debug, Clone, Copy, PartialEq, Eq, Structural, Hash)]
pub struct CType(pub i32);

impl CType {
    /// The value `0`.
    pub fn String() -> (r: Self)
        ensures
            r == CType(0),
    {
        Self(0)
    }

    /// The value `1`.
    pub fn Cord() -> (r: Self)
        ensures
            r == CType(1),
    {
        Self(1)
    }

    /// The value `2`.
    pub fn StringPiece() -> (r: Self)
        ensures
            r == CType(2),
    {
        Self(2)
    }
}

impl Default for CType {
    fn default() -> (r: Self)
        ensures
            r == CType(0),
    {
        Self(0)
    }
}

impl From<i32> for CType {
    fn from(val: i32) -> (r: Self) {
        Self(val)
    }
}

impl vstd::std_specs::convert::FromSpecImpl<i32> for CType {
    open spec fn obeys_from_spec() -> bool {
        true
    }

    open spec fn from_spec(v: i32) -> Self {
        CType(v)
    }
}

#[derive(Debug, Clone, Copy, PartialEq, Eq, Structural, Hash)]
pub struct JSType(pub i32);

impl JSType {
    /// The value `0`.
    pub fn JsNormal() -> (r: Self)
        ensures
            r == JSType(0),
    {
        Self(0)
    }

    /// The value `1`.
    pub fn JsString() -> (r: Self)
        ensures
            r == JSType(1),
    {
        Self(1)
    }

    /// The value `2`.
    pub fn JsNumber() -> (r: Self)
        ensures
            r == JSType(2),
    {
        Self(2)
    }
}

impl Default for JSType {
    fn default() -> (r: Self)
        ensures
            r == JSType(0),
    {
        Self(0)
    }
}

impl From<i32> for JSType {
    fn from(val: i32) -> (r: Self) {
        Self(val)
    }
}

impl vstd::std_specs::convert::FromSpecImpl<i32> for JSType {
    open spec fn obeys_from_spec() -> bool {
        true
    }

    open spec fn from_spec(v: i32) -> Self {
        JSType(v)
    }
}

#[derive(Debug, Clone, Copy, PartialEq, Eq, Structural, Hash)]
pub struct OptionRetention(pub i32);

impl OptionRetention {
    /// The value `0`.
    pub fn RetentionUnknown() -> (r: Self)
        ensures
            r == OptionRetention(0),
    {
        Self(0)
    }

    /// The value `1`.
    pub fn RetentionRuntime() -> (r: Self)
        ensures
            r == OptionRetention(1),
    {
        Self(1)
    }

    /// The value `2`.
    pub fn RetentionSource() -> (r: Self)
        ensures
            r == OptionRetention(2),
    {
        Self(2)
    }
}

impl Default for OptionRetention {
    fn default() -> (r: Self)
        ensures
            r == OptionRetention(0),
    {
        Self(0)
    }
}

impl From<i32> for OptionRetention {
    fn from(val: i32) -> (r: Self) {
        Self(val)
    }
}

impl vstd::std_specs::convert::FromSpecImpl<i32> for OptionRetention {
    open spec fn obeys_from_spec() -> bool {
        true
    }

    open spec fn from_spec(v: i32) -> Self {
        OptionRetention(v)
    }
}

#[derive(Debug, Clone, Copy, PartialEq, Eq, Structural, Hash)]
pub struct OptionTargetType(pub i32);

impl OptionTargetType {
    /// The value `0`.
    pub fn TargetTypeUnknown() -> (r: Self)
        ensures
            r == OptionTargetType(0),
    {
        Self(0)
    }

    /// The value `1`.
    pub fn TargetTypeFile() -> (r: Self)
        ensures
            r == OptionTargetType(1),
    {
        Self(1)
    }

    /// The value `2`.
    pub fn TargetTypeExtensionRange() -> (r: Self)
        ensures
            r == OptionTargetType(2),
    {
        Self(2)
    }

    /// The value `3`.
    pub fn TargetTypeMessage() -> (r: Self)
        ensures
            r == OptionTargetType(3),
    {
        Self(3)
    }

    /// The value `4`.
    pub fn TargetTypeField() -> (r: Self)
        ensures
            r == OptionTargetType(4),
    {
        Self(4)
    }

    /// The value `5`.
    pub fn TargetTypeOneof() -> (r: Self)
        ensures
            r == OptionTargetType(5),
    {
        Self(5)
    }

    /// The value `6`.
    pub fn TargetTypeEnum() -> (r: Self)
        ensures
            r == OptionTargetType(6),
    {
        Self(6)
    }

    /// The value `7`.
    pub fn TargetTypeEnumEntry() -> (r: Self)
        ensures
            r == OptionTargetType(7),
    {
        Self(7)
    }

    /// The value `8`.
    pub fn TargetTypeService() -> (r: Self)
        ensures
            r == OptionTargetType(8),
    {
        Self(8)
    }

    /// The value `9`.
    pub fn TargetTypeMethod() -> (r: Self)
        ensures
            r == OptionTargetType(9),
    {
        Self(9)
    }
}

impl Default for OptionTargetType {
    fn default() -> (r: Self)
        ensures
            r == OptionTargetType(0),
    {
        Self(0)
    }
}

impl From<i32> for OptionTargetType {
    fn from(val: i32) -> (r: Self) {
        Self(val)
    }
}

impl vstd::std_specs::convert::FromSpecImpl<i32> for OptionTargetType {
    open spec fn obeys_from_spec() -> bool {
        true
    }

    open spec fn from_spec(v: i32) -> Self {
        OptionTargetType(v)
    }
}

/// Presence bits of the optional fields of `FieldOptions`: bit `i % 8` of byte `i / 8` is flag `i`.
#[derive(Debug, PartialEq)]
pub struct _Hazzer(pub [u8; 2]);

impl View for _Hazzer {
    type V = Seq<bool>;

    open spec fn view(&self) -> Seq<bool> {
        flags_of(self.0@)
    }
}

impl Default for _Hazzer {
    fn default() -> (r: Self)
        ensures
            r@ == Seq::new(16, |i: int| false),
    {
        let r = _Hazzer([0u8, 0u8]);
        proof {
            lemma_flags_zero(r.0@);
            assert(r@ =~= Seq::new(16, |i: int| false));
        }
        r
    }
}

impl Clone for _Hazzer {
    fn clone(&self) -> (r: Self)
        ensures
            r == *self,
    {
        _Hazzer(self.0)
    }
}

impl _Hazzer {
    ///Query presence of `ctype`
    #[inline]
    pub fn ctype(&self) -> (r: bool)
        ensures
            r == self@[0],
    {
        proof {
            lemma_flags_get(self.0@, 0, 0);
        }
        (self.0[0] & (1u8 << 0u8)) != 0
    }

    ///Set presence of `ctype`
    #[inline]
    pub fn set_ctype(&mut self) -> (r: &mut Self)
        ensures
            r@ == old(self)@.update(0, true),
            *final(self) == *final(r),
    {
        let ghost bytes = self.0@;
        self.0[0] = self.0[0] | (1u8 << 0u8);
        proof {
            lemma_flags_set(bytes, self.0@, 0, 0);
        }
        self
    }

    ///Clear presence of `ctype`
    #[inline]
    pub fn clear_ctype(&mut self) -> (r: &mut Self)
        ensures
            r@ == old(self)@.update(0, false),
            *final(self) == *final(r),
    {
        let ghost bytes = self.0@;
        self.0[0] = self.0[0] & !(1u8 << 0u8);
        proof {
            lemma_flags_clear(bytes, self.0@, 0, 0);
        }
        self
    }

    ///Builder method that sets the presence of `ctype`. Useful for initializing the Hazzer.
    #[inline]
    pub fn init_ctype(self) -> (r: Self)
        ensures
            r@ == self@.update(0, true),
    {
        let mut s = self;
        s.set_ctype();
        s
    }

    ///Query presence of `packed`
    #[inline]
    pub fn packed(&self) -> (r: bool)
        ensures
            r == self@[1],
    {
        proof {
            lemma_flags_get(self.0@, 0, 1);
        }
        (self.0[0] & (1u8 << 1u8)) != 0
    }

    ///Set presence of `packed`
    #[inline]
    pub fn set_packed(&mut self) -> (r: &mut Self)
        ensures
            r@ == old(self)@.update(1, true),
            *final(self) == *final(r),
    {
        let ghost bytes = self.0@;
        self.0[0] = self.0[0] | (1u8 << 1u8);
        proof {
            lemma_flags_set(bytes, self.0@, 0, 1);
        }
        self
    }

    ///Clear presence of `packed`
    #[inline]
    pub fn clear_packed(&mut self) -> (r: &mut Self)
        ensures
            r@ == old(self)@.update(1, false),
            *final(self) == *final(r),
    {
        let ghost bytes = self.0@;
        self.0[0] = self.0[0] & !(1u8 << 1u8);
        proof {
            lemma_flags_clear(bytes, self.0@, 0, 1);
        }
        self
    }

    ///Builder method that sets the presence of `packed`. Useful for initializing the Hazzer.
    #[inline]
    pub fn init_packed(self) -> (r: Self)
        ensures
            r@ == self@.update(1, true),
    {
        let mut s = self;
        s.set_packed();
        s
    }

    ///Query presence of `jstype`
    #[inline]
    pub fn jstype(&self) -> (r: bool)
        ensures
            r == self@[2],
    {
        proof {
            lemma_flags_get(self.0@, 0, 2);
        }
        (self.0[0] & (1u8 << 2u8)) != 0
    }

    ///Set presence of `jstype`
    #[inline]
    pub fn set_jstype(&mut self) -> (r: &mut Self)
        ensures
            r@ == old(self)@.update(2, true),
            *final(self) == *final(r),
    {
        let ghost bytes = self.0@;
        self.0[0] = self.0[0] | (1u8 << 2u8);
        proof {
            lemma_flags_set(bytes, self.0@, 0, 2);
        }
        self
    }

    ///Clear presence of `jstype`
    #[inline]
    pub fn clear_jstype(&mut self) -> (r: &mut Self)
        ensures
            r@ == old(self)@.update(2, false),
            *final(self) == *final(r),
    {
        let ghost bytes = self.0@;
        self.0[0] = self.0[0] & !(1u8 << 2u8);
        proof {
            lemma_flags_clear(bytes, self.0@, 0, 2);
        }
        self
    }

    ///Builder method that sets the presence of `jstype`. Useful for initializing the Hazzer.
    #[inline]
    pub fn init_jstype(self) -> (r: Self)
        ensures
            r@ == self@.update(2, true),
    {
        let mut s = self;
        s.set_jstype();
        s
    }

    ///Query presence of `lazy`
    #[inline]
    pub fn lazy(&self) -> (r: bool)
        ensures
            r == self@[3],
    {
        proof {
            lemma_flags_get(self.0@, 0, 3);
        }
        (self.0[0] & (1u8 << 3u8)) != 0
    }

    ///Set presence of `lazy`
    #[inline]
    pub fn set_lazy(&mut self) -> (r: &mut Self)
        ensures
            r@ == old(self)@.update(3, true),
            *final(self) == *final(r),
    {
        let ghost bytes = self.0@;
        self.0[0] = self.0[0] | (1u8 << 3u8);
        proof {
            lemma_flags_set(bytes, self.0@, 0, 3);
        }
        self
    }

    ///Clear presence of `lazy`
    #[inline]
    pub fn clear_lazy(&mut self) -> (r: &mut Self)
        ensures
            r@ == old(self)@.update(3, false),
            *final(self) == *final(r),
    {
        let ghost bytes = self.0@;
        self.0[0] = self.0[0] & !(1u8 << 3u8);
        proof {
            lemma_flags_clear(bytes, self.0@, 0, 3);
        }
        self
    }

    ///Builder method that sets the presence of `lazy`. Useful for initializing the Hazzer.
    #[inline]
    pub fn init_lazy(self) -> (r: Self)
        ensures
            r@ == self@.update(3, true),
    {
        let mut s = self;
        s.set_lazy();
        s
    }

    ///Query presence of `unverified_lazy`
    #[inline]
    pub fn unverified_lazy(&self) -> (r: bool)
        ensures
            r == self@[4],
    {
        proof {
            lemma_flags_get(self.0@, 0, 4);
        }
        (self.0[0] & (1u8 << 4u8)) != 0
    }

    ///Set presence of `unverified_lazy`
    #[inline]
    pub fn set_unverified_lazy(&mut self) -> (r: &mut Self)
        ensures
            r@ == old(self)@.update(4, true),
            *final(self) == *final(r),
    {
        let ghost bytes = self.0@;
        self.0[0] = self.0[0] | (1u8 << 4u8);
        proof {
            lemma_flags_set(bytes, self.0@, 0, 4);
        }
        self
    }

    ///Clear presence of `unverified_lazy`
    #[inline]
    pub fn clear_unverified_lazy(&mut self) -> (r: &mut Self)
        ensures
            r@ == old(self)@.update(4, false),
            *final(self) == *final(r),
    {
        let ghost bytes = self.0@;
        self.0[0] = self.0[0] & !(1u8 << 4u8);
        proof {
            lemma_flags_clear(bytes, self.0@, 0, 4);
        }
        self
    }

    ///Builder method that sets the presence of `unverified_lazy`. Useful for initializing the Hazzer.
    #[inline]
    pub fn init_unverified_lazy(self) -> (r: Self)
        ensures
            r@ == self@.update(4, true),
    {
        let mut s = self;
        s.set_unverified_lazy();
        s
    }

    ///Query presence of `deprecated`
    #[inline]
    pub fn deprecated(&self) -> (r: bool)
        ensures
            r == self@[5],
    {
        proof {
            lemma_flags_get(self.0@, 0, 5);
        }
        (self.0[0] & (1u8 << 5u8)) != 0
    }

    ///Set presence of `deprecated`
    #[inline]
    pub fn set_deprecated(&mut self) -> (r: &mut Self)
        ensures
            r@ == old(self)@.update(5, true),
            *final(self) == *final(r),
    {
        let ghost bytes = self.0@;
        self.0[0] = self.0[0] | (1u8 << 5u8);
        proof {
            lemma_flags_set(bytes, self.0@, 0, 5);
        }
        self
    }

    ///Clear presence of `deprecated`
    #[inline]
    pub fn clear_deprecated(&mut self) -> (r: &mut Self)
        ensures
            r@ == old(self)@.update(5, false),
            *final(self) == *final(r),
    {
        let ghost bytes = self.0@;
        self.0[0] = self.0[0] & !(1u8 << 5u8);
        proof {
            lemma_flags_clear(bytes, self.0@, 0, 5);
        }
        self
    }

    ///Builder method that sets the presence of `deprecated`. Useful for initializing the Hazzer.
    #[inline]
    pub fn init_deprecated(self) -> (r: Self)
        ensures
            r@ == self@.update(5, true),
    {
        let mut s = self;
        s.set_deprecated();
        s
    }

    ///Query presence of `weak`
    #[inline]
    pub fn weak(&self) -> (r: bool)
        ensures
            r == self@[6],
    {
        proof {
            lemma_flags_get(self.0@, 0, 6);
        }
        (self.0[0] & (1u8 << 6u8)) != 0
    }

    ///Set presence of `weak`
    #[inline]
    pub fn set_weak(&mut self) -> (r: &mut Self)
        ensures
            r@ == old(self)@.update(6, true),
            *final(self) == *final(r),
    {
        let ghost bytes = self.0@;
        self.0[0] = self.0[0] | (1u8 << 6u8);
        proof {
            lemma_flags_set(bytes, self.0@, 0, 6);
        }
        self
    }

    ///Clear presence of `weak`
    #[inline]
    pub fn clear_weak(&mut self) -> (r: &mut Self)
        ensures
            r@ == old(self)@.update(6, false),
            *final(self) == *final(r),
    {
        let ghost bytes = self.0@;
        self.0[0] = self.0[0] & !(1u8 << 6u8);
        proof {
            lemma_flags_clear(bytes, self.0@, 0, 6);
        }
        self
    }

    ///Builder method that sets the presence of `weak`. Useful for initializing the Hazzer.
    #[inline]
    pub fn init_weak(self) -> (r: Self)
        ensures
            r@ == self@.update(6, true),
    {
        let mut s = self;
        s.set_weak();
        s
    }

    ///Query presence of `debug_redact`
    #[inline]
    pub fn debug_redact(&self) -> (r: bool)
        ensures
            r == self@[7],
    {
        proof {
            lemma_flags_get(self.0@, 0, 7);
        }
        (self.0[0] & (1u8 << 7u8)) != 0
    }

    ///Set presence of `debug_redact`
    #[inline]
    pub fn set_debug_redact(&mut self) -> (r: &mut Self)
        ensures
            r@ == old(self)@.update(7, true),
            *final(self) == *final(r),
    {
        let ghost bytes = self.0@;
        self.0[0] = self.0[0] | (1u8 << 7u8);
        proof {
            lemma_flags_set(bytes, self.0@, 0, 7);
        }
        self
    }

    ///Clear presence of `debug_redact`
    #[inline]
    pub fn clear_debug_redact(&mut self) -> (r: &mut Self)
        ensures
            r@ == old(self)@.update(7, false),
            *final(self) == *final(r),
    {
        let ghost bytes = self.0@;
        self.0[0] = self.0[0] & !(1u8 << 7u8);
        proof {
            lemma_flags_clear(bytes, self.0@, 0, 7);
        }
        self
    }

    ///Builder method that sets the presence of `debug_redact`. Useful for initializing the Hazzer.
    #[inline]
    pub fn init_debug_redact(self) -> (r: Self)
        ensures
            r@ == self@.update(7, true),
    {
        let mut s = self;
        s.set_debug_redact();
        s
    }

    ///Query presence of `retention`
    #[inline]
    pub fn retention(&self) -> (r: bool)
        ensures
            r == self@[8],
    {
        proof {
            lemma_flags_get(self.0@, 1, 0);
        }
        (self.0[1] & (1u8 << 0u8)) != 0
    }

    ///Set presence of `retention`
    #[inline]
    pub fn set_retention(&mut self) -> (r: &mut Self)
        ensures
            r@ == old(self)@.update(8, true),
            *final(self) == *final(r),
    {
        let ghost bytes = self.0@;
        self.0[1] = self.0[1] | (1u8 << 0u8);
        proof {
            lemma_flags_set(bytes, self.0@, 1, 0);
        }
        self
    }

    ///Clear presence of `retention`
    #[inline]
    pub fn clear_retention(&mut self) -> (r: &mut Self)
        ensures
            r@ == old(self)@.update(8, false),
            *final(self) == *final(r),
    {
        let ghost bytes = self.0@;
        self.0[1] = self.0[1] & !(1u8 << 0u8);
        proof {
            lemma_flags_clear(bytes, self.0@, 1, 0);
        }
        self
    }

    ///Builder method that sets the presence of `retention`. Useful for initializing the Hazzer.
    #[inline]
    pub fn init_retention(self) -> (r: Self)
        ensures
            r@ == self@.update(8, true),
    {
        let mut s = self;
        s.set_retention();
        s
    }

    ///Query presence of `features`
    #[inline]
    pub fn features(&self) -> (r: bool)
        ensures
            r == self@[9],
    {
        proof {
            lemma_flags_get(self.0@, 1, 1);
        }
        (self.0[1] & (1u8 << 1u8)) != 0
    }

    ///Set presence of `features`
    #[inline]
    pub fn set_features(&mut self) -> (r: &mut Self)
        ensures
            r@ == old(self)@.update(9, true),
            *final(self) == *final(r),
    {
        let ghost bytes = self.0@;
        self.0[1] = self.0[1] | (1u8 << 1u8);
        proof {
            lemma_flags_set(bytes, self.0@, 1, 1);
        }
        self
    }

    ///Clear presence of `features`
    #[inline]
    pub fn clear_features(&mut self) -> (r: &mut Self)
        ensures
            r@ == old(self)@.update(9, false),
            *final(self) == *final(r),
    {
        let ghost bytes = self.0@;
        self.0[1] = self.0[1] & !(1u8 << 1u8);
        proof {
            lemma_flags_clear(bytes, self.0@, 1, 1);
        }
        self
    }

    ///Builder method that sets the presence of `features`. Useful for initializing the Hazzer.
    #[inline]
    pub fn init_features(self) -> (r: Self)
        ensures
            r@ == self@.update(9, true),
    {
        let mut s = self;
        s.set_features();
        s
    }

    ///Query presence of `feature_support`
    #[inline]
    pub fn feature_support(&self) -> (r: bool)
        ensures
            r == self@[10],
    {
        proof {
            lemma_flags_get(self.0@, 1, 2);
        }
        (self.0[1] & (1u8 << 2u8)) != 0
    }

    ///Set presence of `feature_support`
    #[inline]
    pub fn set_feature_support(&mut self) -> (r: &mut Self)
        ensures
            r@ == old(self)@.update(10, true),
            *final(self) == *final(r),
    {
        let ghost bytes = self.0@;
        self.0[1] = self.0[1] | (1u8 << 2u8);
        proof {
            lemma_flags_set(bytes, self.0@, 1, 2);
        }
        self
    }

    ///Clear presence of `feature_support`
    #[inline]
    pub fn clear_feature_support(&mut self) -> (r: &mut Self)
        ensures
            r@ == old(self)@.update(10, false),
            *final(self) == *final(r),
    {
        let ghost bytes = self.0@;
        self.0[1] = self.0[1] & !(1u8 << 2u8);
        proof {
            lemma_flags_clear(bytes, self.0@, 1, 2);
        }
        self
    }

    ///Builder method that sets the presence of `feature_support`. Useful for initializing the Hazzer.
    #[inline]
    pub fn init_feature_support(self) -> (r: Self)
        ensures
            r@ == self@.update(10, true),
    {
        let mut s = self;
        s.set_feature_support();
        s
    }
}

/// The Protobuf message `google.protobuf.FieldOptions`.
#[derive(Debug)]
pub struct FieldOptions {
    pub ctype: pb::FieldOptions_::CType,
    pub packed: bool,
    pub jstype: pb::FieldOptions_::JSType,
    pub lazy: bool,
    pub unverified_lazy: bool,
    pub deprecated: bool,
    pub weak: bool,
    pub debug_redact: bool,
    pub retention: pb::FieldOptions_::OptionRetention,
    pub targets: Vec<pb::FieldOptions_::OptionTargetType>,
    pub edition_defaults: Vec<pb::FieldOptions_::EditionDefault_::EditionDefault>,
    pub features: pb::FeatureSet_::FeatureSet,
    pub feature_support: pb::FieldOptions_::FeatureSupport_::FeatureSupport,
    pub uninterpreted_option: Vec<pb::UninterpretedOption_::UninterpretedOption>,
    pub _has: _Hazzer,
}

/// The value of a `FieldOptions` as the contracts see it.
#[verifier::ext_equal]
pub ghost struct FieldOptionsModel {
    pub ctype: pb::FieldOptions_::CType,
    pub packed: bool,
    pub jstype: pb::FieldOptions_::JSType,
    pub lazy: bool,
    pub unverified_lazy: bool,
    pub deprecated: bool,
    pub weak: bool,
    pub debug_redact: bool,
    pub retention: pb::FieldOptions_::OptionRetention,
    pub targets: Seq<pb::FieldOptions_::OptionTargetType>,
    pub edition_defaults: Seq<pb::FieldOptions_::EditionDefault_::EditionDefaultModel>,
    pub features: pb::FeatureSet_::FeatureSetModel,
    pub feature_support: pb::FieldOptions_::FeatureSupport_::FeatureSupportModel,
    pub uninterpreted_option: Seq<pb::UninterpretedOption_::UninterpretedOptionModel>,
    pub _has: Seq<bool>,
}

impl View for FieldOptions {
    type V = FieldOptionsModel;

    open spec fn view(&self) -> FieldOptionsModel {
        FieldOptionsModel {
            ctype: self.ctype,
            packed: self.packed,
            jstype: self.jstype,
            lazy: self.lazy,
            unverified_lazy: self.unverified_lazy,
            deprecated: self.deprecated,
            weak: self.weak,
            debug_redact: self.debug_redact,
            retention: self.retention,
            targets: self.targets@,
            edition_defaults: self.edition_defaults@.map_values(|m: pb::FieldOptions_::EditionDefault_::EditionDefault| m@),
            features: self.features@,
            feature_support: self.feature_support@,
            uninterpreted_option: self.uninterpreted_option@.map_values(|m: pb::UninterpretedOption_::UninterpretedOption| m@),
            _has: self._has@,
        }
    }
}

impl FieldOptionsModel {
    /// The value of a `FieldOptions` with no field set.
    pub open spec fn empty() -> FieldOptionsModel {
        FieldOptionsModel {
            ctype: pb::FieldOptions_::CType(0),
            packed: false,
            jstype: pb::FieldOptions_::JSType(0),
            lazy: false,
            unverified_lazy: false,
            deprecated: false,
            weak: false,
            debug_redact: false,
            retention: pb::FieldOptions_::OptionRetention(0),
            targets: Seq::empty(),
            edition_defaults: Seq::empty(),
            features: pb::FeatureSet_::FeatureSetModel::empty(),
            feature_support: pb::FieldOptions_::FeatureSupport_::FeatureSupportModel::empty(),
            uninterpreted_option: Seq::empty(),
            _has: Seq::new(16, |i: int| false),
        }
    }

    /// The message after the value of the field numbered `num`, with wire type `wt`, at the
    /// start of `s` has been merged into it, and the length of that value. A known field is
    /// read as its own type: a later value of a singular field replaces the earlier one, and
    /// a repeated field gains the values at its end. An unknown field is skipped by its wire
    /// type and leaves the message as it was.
    #[verifier::opaque]
    pub open spec fn merge_field(self, num: u32, wt: u32, s: Seq<u8>) -> Result<(FieldOptionsModel, nat), DecodeError>
    {
        if num == 1 {
            match parse_varint(s) {
                Ok((v, n)) => Ok(((FieldOptionsModel { ctype: pb::FieldOptions_::CType(varint_as_i32(v)), _has: self._has.update(0, true), ..self }), n)),
                Err(e) => Err(e),
            }
        } else if num == 2 {
            match parse_varint(s) {
                Ok((v, n)) => Ok(((FieldOptionsModel { packed: v != 0, _has: self._has.update(1, true), ..self }), n)),
                Err(e) => Err(e),
            }
        } else if num == 6 {
            match parse_varint(s) {
                Ok((v, n)) => Ok(((FieldOptionsModel { jstype: pb::FieldOptions_::JSType(varint_as_i32(v)), _has: self._has.update(2, true), ..self }), n)),
                Err(e) => Err(e),
            }
        } else if num == 5 {
            match parse_varint(s) {
                Ok((v, n)) => Ok(((FieldOptionsModel { lazy: v != 0, _has: self._has.update(3, true), ..self }), n)),
                Err(e) => Err(e),
            }
        } else if num == 15 {
            match parse_varint(s) {
                Ok((v, n)) => Ok(((FieldOptionsModel { unverified_lazy: v != 0, _has: self._has.update(4, true), ..self }), n)),
                Err(e) => Err(e),
            }
        } else if num == 3 {
            match parse_varint(s) {
                Ok((v, n)) => Ok(((FieldOptionsModel { deprecated: v != 0, _has: self._has.update(5, true), ..self }), n)),
                Err(e) => Err(e),
            }
        } else if num == 10 {
            match parse_varint(s) {
                Ok((v, n)) => Ok(((FieldOptionsModel { weak: v != 0, _has: self._has.update(6, true), ..self }), n)),
                Err(e) => Err(e),
            }
        } else if num == 16 {
            match parse_varint(s) {
                Ok((v, n)) => Ok(((FieldOptionsModel { debug_redact: v != 0, _has: self._has.update(7, true), ..self }), n)),
                Err(e) => Err(e),
            }
        } else if num == 17 {
            match parse_varint(s) {
                Ok((v, n)) => Ok(((FieldOptionsModel { retention: pb::FieldOptions_::OptionRetention(varint_as_i32(v)), _has: self._has.update(8, true), ..self }), n)),
                Err(e) => Err(e),
            }
        } else if num == 19 {
            if wt == WIRE_TYPE_LEN {
                match parse_len(s) {
                    Ok((p, n)) => match parse_packed_i32(p) {
                        Ok(vs) => Ok(((FieldOptionsModel { targets: self.targets + vs.map_values(|x: i32| pb::FieldOptions_::OptionTargetType(x)), ..self }), n)),
                        Err(e) => Err(e),
                    },
                    Err(e) => Err(e),
                }
            } else {
                match parse_varint(s) {
                    Ok((v, n)) => Ok(((FieldOptionsModel { targets: self.targets.push(pb::FieldOptions_::OptionTargetType(varint_as_i32(v))), ..self }), n)),
                    Err(e) => Err(e),
                }
            }
        } else if num == 20 {
            match parse_varint(s) {
                Ok((l, m)) => if 0 < m <= s.len() {
                    match pb::FieldOptions_::EditionDefault_::EditionDefaultModel::empty().decode_stream(s.subrange(m as int, s.len() as int), l as int) {
                        Ok((x, c)) => Ok(((FieldOptionsModel { edition_defaults: self.edition_defaults.push(x), ..self }), m + c)),
                        Err(e) => Err(e),
                    }
                } else {
                    Err(DecodeError::UnexpectedEof)
                },
                Err(e) => Err(e),
            }
        } else if num == 21 {
            match parse_varint(s) {
                Ok((l, m)) => if 0 < m <= s.len() {
                    match self.features.decode_stream(s.subrange(m as int, s.len() as int), l as int) {
                        Ok((x, c)) => Ok(((FieldOptionsModel { features: x, _has: self._has.update(9, true), ..self }), m + c)),
                        Err(e) => Err(e),
                    }
                } else {
                    Err(DecodeError::UnexpectedEof)
                },
                Err(e) => Err(e),
            }
        } else if num == 22 {
            match parse_varint(s) {
                Ok((l, m)) => if 0 < m <= s.len() {
                    match self.feature_support.decode_stream(s.subrange(m as int, s.len() as int), l as int) {
                        Ok((x, c)) => Ok(((FieldOptionsModel { feature_support: x, _has: self._has.update(10, true), ..self }), m + c)),
                        Err(e) => Err(e),
                    }
                } else {
                    Err(DecodeError::UnexpectedEof)
                },
                Err(e) => Err(e),
            }
        } else if num == 999 {
            match parse_varint(s) {
                Ok((l, m)) => if 0 < m <= s.len() {
                    match pb::UninterpretedOption_::UninterpretedOptionModel::empty().decode_stream(s.subrange(m as int, s.len() as int), l as int) {
                        Ok((x, c)) => Ok(((FieldOptionsModel { uninterpreted_option: self.uninterpreted_option.push(x), ..self }), m + c)),
                        Err(e) => Err(e),
                    }
                } else {
                    Err(DecodeError::UnexpectedEof)
                },
                Err(e) => Err(e),
            }
        } else {
            match skip_len(s, wt) {
                Ok(n) => Ok((self, n)),
                Err(e) => Err(e),
            }
        }
    }

    /// The message after its fields have been read from the start of `s` while fewer than
    /// `rem` bytes have been read, and how many bytes were read. Each field is read whole,
    /// so the last one may run past `rem`. A field numbered 0 is refused.
    pub open spec fn decode_stream(self, s: Seq<u8>, rem: int) -> Result<(FieldOptionsModel, nat), DecodeError>
        decreases s.len(),
    {
        if rem <= 0 {
            Ok((self, 0))
        } else {
            match parse_tag(s) {
                Err(e) => Err(e),
                Ok((num, wt, n)) => if num == 0 {
                    Err(DecodeError::ZeroField)
                } else if 0 < n <= s.len() {
                    let rest = s.subrange(n as int, s.len() as int);
                    match self.merge_field(num, wt, rest) {
                        Ok((m, k)) => if k <= rest.len() {
                            shift_consumed(
                                m.decode_stream(rest.subrange(k as int, rest.len() as int), rem - (n + k)),
                                n + k,
                            )
                        } else {
                            Err(DecodeError::UnexpectedEof)
                        },
                        Err(e) => Err(e),
                    }
                } else {
                    Err(DecodeError::UnexpectedEof)
                },
            }
        }
    }

    /// The message after every field in `s` has been merged into it, in order: its fields
    /// read from `s` while fewer than `s.len()` bytes have been read.
    pub open spec fn merge_from(self, s: Seq<u8>) -> Result<FieldOptionsModel, DecodeError> {
        match self.decode_stream(s, s.len() as int) {
            Ok((m, c)) => Ok(m),
            Err(e) => Err(e),
        }
    }

    /// The message as a failed merge of the field numbered `num`, with wire type `wt`, at
    /// the start of `s` leaves it: a nested message keeps what was read into it before
    /// its own failure, and nothing else changes.
    pub open spec fn merge_field_partial(self, num: u32, wt: u32, s: Seq<u8>) -> FieldOptionsModel {
        if num == 21 {
            match parse_varint(s) {
                Ok((l, m)) => if 0 < m <= s.len() {
                    FieldOptionsModel { features: self.features.until_error_stream(s.subrange(m as int, s.len() as int), l as int), ..self }
                } else {
                    self
                },
                Err(e) => self,
            }
        } else if num == 22 {
            match parse_varint(s) {
                Ok((l, m)) => if 0 < m <= s.len() {
                    FieldOptionsModel { feature_support: self.feature_support.until_error_stream(s.subrange(m as int, s.len() as int), l as int), ..self }
                } else {
                    self
                },
                Err(e) => self,
            }
        } else {
            self
        }
    }

    /// The message after its fields have been read from the start of `s`, as in
    /// `decode_stream`, up to the first one that fails: that one leaves the message as its
    /// failed merge does, and no field after it is read.
    pub open spec fn until_error_stream(self, s: Seq<u8>, rem: int) -> FieldOptionsModel
        decreases s.len(),
    {
        if rem <= 0 {
            self
        } else {
            match parse_tag(s) {
                Err(e) => self,
                Ok((num, wt, n)) => if num == 0 {
                    self
                } else if 0 < n <= s.len() {
                    let rest = s.subrange(n as int, s.len() as int);
                    match self.merge_field(num, wt, rest) {
                        Ok((m, k)) => if k <= rest.len() {
                            m.until_error_stream(rest.subrange(k as int, rest.len() as int), rem - (n + k))
                        } else {
                            m
                        },
                        Err(e) => self.merge_field_partial(num, wt, rest),
                    }
                } else {
                    self
                },
            }
        }
    }

    /// The message after the fields of `s` have been merged into it in order, up to the
    /// first one that fails, which leaves the message as its failed merge does. When none
    /// fails, this is what `merge_from` gives.
    pub open spec fn merge_until_error(self, s: Seq<u8>) -> FieldOptionsModel {
        self.until_error_stream(s, s.len() as int)
    }

    /// Reading fields reads at most the whole input, and at least `rem` bytes when `rem` is
    /// positive.
    pub proof fn lemma_stream_bounds(self, s: Seq<u8>, rem: int)
        ensures
            self.decode_stream(s, rem) matches Ok((m, c)) ==> c <= s.len() && (rem > 0 ==> c >= rem) && (
            rem <= 0 ==> c == 0),
        decreases s.len(),
    {
        if rem > 0 {
            if let Ok((num, wt, n)) = parse_tag(s) {
                if num != 0 && 0 < n <= s.len() {
                    let rest = s.subrange(n as int, s.len() as int);
                    if let Ok((m, k)) = self.merge_field(num, wt, rest) {
                        if k <= rest.len() {
                            m.lemma_stream_bounds(rest.subrange(k as int, rest.len() as int), rem - (n + k));
                        }
                    }
                }
            }
        }
    }

    /// Fields that can be read from `s` read the same from `s` followed by anything.
    pub proof fn lemma_stream_prefix(self, s: Seq<u8>, b: Seq<u8>, rem: int)
        requires
            self.decode_stream(s, rem) is Ok,
        ensures
            self.decode_stream(s + b, rem) == self.decode_stream(s, rem),
        decreases s.len(),
    {
        if rem > 0 {
            lemma_values_prefix(s, b);
            let (num, wt, n) = parse_tag(s)->Ok_0;
            let rest = s.subrange(n as int, s.len() as int);
            assert((s + b).subrange(n as int, (s + b).len() as int) =~= rest + b);
            self.lemma_merge_field_prefix(num, wt, rest, b);
            let (m, k) = self.merge_field(num, wt, rest)->Ok_0;
            let t = rest.subrange(k as int, rest.len() as int);
            assert((rest + b).subrange(k as int, (rest + b).len() as int) =~= t + b);
            m.lemma_stream_prefix(t, b, rem - (n + k));
        }
    }

    proof fn lemma_merge_field_prefix(self, num: u32, wt: u32, s: Seq<u8>, b: Seq<u8>)
        requires
            self.merge_field(num, wt, s) is Ok,
        ensures
            self.merge_field(num, wt, s + b) == self.merge_field(num, wt, s),
        
    {
        reveal(FieldOptionsModel::merge_field);
        lemma_values_prefix(s, b);
        lemma_len_bounds(s);
        if num == 20 {
            match parse_varint(s) {
                Ok((l, m)) => if 0 < m <= s.len() {
                    let t = s.subrange(m as int, s.len() as int);
                    assert((s + b).subrange(m as int, (s + b).len() as int) =~= t + b);
                    if pb::FieldOptions_::EditionDefault_::EditionDefaultModel::empty().decode_stream(t, l as int) is Ok {
                        pb::FieldOptions_::EditionDefault_::EditionDefaultModel::empty().lemma_stream_prefix(t, b, l as int);
                    }
                },
                Err(e) => {},
            }
        }
        if num == 21 {
            match parse_varint(s) {
                Ok((l, m)) => if 0 < m <= s.len() {
                    let t = s.subrange(m as int, s.len() as int);
                    assert((s + b).subrange(m as int, (s + b).len() as int) =~= t + b);
                    if self.features.decode_stream(t, l as int) is Ok {
                        self.features.lemma_stream_prefix(t, b, l as int);
                    }
                },
                Err(e) => {},
            }
        }
        if num == 22 {
            match parse_varint(s) {
                Ok((l, m)) => if 0 < m <= s.len() {
                    let t = s.subrange(m as int, s.len() as int);
                    assert((s + b).subrange(m as int, (s + b).len() as int) =~= t + b);
                    if self.feature_support.decode_stream(t, l as int) is Ok {
                        self.feature_support.lemma_stream_prefix(t, b, l as int);
                    }
                },
                Err(e) => {},
            }
        }
        if num == 999 {
            match parse_varint(s) {
                Ok((l, m)) => if 0 < m <= s.len() {
                    let t = s.subrange(m as int, s.len() as int);
                    assert((s + b).subrange(m as int, (s + b).len() as int) =~= t + b);
                    if pb::UninterpretedOption_::UninterpretedOptionModel::empty().decode_stream(t, l as int) is Ok {
                        pb::UninterpretedOption_::UninterpretedOptionModel::empty().lemma_stream_prefix(t, b, l as int);
                    }
                },
                Err(e) => {},
            }
        }
    }

    /// Reading exactly `r1` bytes of fields, then `r2` more, is reading while fewer than
    /// `r1 + r2` bytes have been read.
    proof fn lemma_stream_split(self, s: Seq<u8>, r1: int, r2: int)
        requires
            r1 >= 0,
            r2 >= 0,
            self.decode_stream(s, r1) matches Ok((m, c)) && c == r1,
        ensures
            self.decode_stream(s, r1 + r2) == shift_consumed(
                self.decode_stream(s, r1)->Ok_0.0.decode_stream(s.subrange(r1, s.len() as int), r2),
                r1 as nat,
            ),
        decreases s.len(),
    {
        if r1 > 0 {
            let (num, wt, n) = parse_tag(s)->Ok_0;
            let rest = s.subrange(n as int, s.len() as int);
            let (m, k) = self.merge_field(num, wt, rest)->Ok_0;
            let t = rest.subrange(k as int, rest.len() as int);
            m.lemma_stream_bounds(t, r1 - (n + k));
            assert(t.subrange(r1 - (n + k), t.len() as int) =~= s.subrange(r1, s.len() as int));
            m.lemma_stream_split(t, r1 - (n + k), r2);
        } else {
            assert(s.subrange(0, s.len() as int) =~= s);
        }
    }

    /// Decoding is merging: when the fields of `a` merge into the message without error,
    /// merging `a` followed by `b` gives what merging `b` into that result gives.
    pub proof fn lemma_merge_from_concat(self, a: Seq<u8>, b: Seq<u8>)
        requires
            self.merge_from(a) is Ok,
        ensures
            self.merge_from(a + b) == self.merge_from(a)->Ok_0.merge_from(b),
    {
        self.lemma_stream_bounds(a, a.len() as int);
        self.lemma_stream_prefix(a, b, a.len() as int);
        assert((a + b).len() == a.len() + b.len());
        self.lemma_stream_split(a + b, a.len() as int, b.len() as int);
        assert((a + b).subrange(a.len() as int, (a + b).len() as int) =~= b);
    }

    proof fn lemma_single_field(self, s: Seq<u8>, num: u32, wt: u32, n: nat)
        requires
            parse_tag(s) == Ok::<(u32, u32, nat), DecodeError>((num, wt, n)),
            num != 0,
            self.merge_field(num, wt, s.subrange(n as int, s.len() as int)) matches Ok((m, k)) && n + k == s.len(),
        ensures
            self.merge_from(s) == Ok::<FieldOptionsModel, DecodeError>(self.merge_field(num, wt, s.subrange(n as int, s.len() as int))->Ok_0.0),
    {
        lemma_tag_bounds(s);
        let rest = s.subrange(n as int, s.len() as int);
        let (m, k) = self.merge_field(num, wt, rest)->Ok_0;
        assert(rest.subrange(k as int, rest.len() as int) =~= Seq::<u8>::empty());
        assert(m.decode_stream(rest.subrange(k as int, rest.len() as int), s.len() - (n + k)) == Ok::<
            (FieldOptionsModel, nat),
            DecodeError,
        >((m, 0)));
    }

    /// A field numbered 1 holds `ctype`: decoding a buffer that holds just such a field,
    /// whatever its wire type, sets `ctype` to the low 32 bits of the varint, marks it present,
    /// and leaves every other field as it was.
    pub proof fn lemma_decode_ctype(self, s: Seq<u8>, wt: u32, n: nat, v: u64, k: nat)
        requires
            parse_tag(s) == Ok::<(u32, u32, nat), DecodeError>((1, wt, n)),
            parse_varint(s.subrange(n as int, s.len() as int)) == Ok::<(u64, nat), DecodeError>((v, k)),
            n + k == s.len(),
        ensures
            self.merge_from(s) == Ok::<FieldOptionsModel, DecodeError>((FieldOptionsModel { ctype: pb::FieldOptions_::CType(varint_as_i32(v)), _has: self._has.update(0, true), ..self })),
    {
        reveal(FieldOptionsModel::merge_field);
        self.lemma_single_field(s, 1, wt, n);
    }

    /// A field numbered 2 holds `packed`: decoding a buffer that holds just such a field,
    /// whatever its wire type, sets `packed` to whether the varint is nonzero, marks it present,
    /// and leaves every other field as it was.
    pub proof fn lemma_decode_packed(self, s: Seq<u8>, wt: u32, n: nat, v: u64, k: nat)
        requires
            parse_tag(s) == Ok::<(u32, u32, nat), DecodeError>((2, wt, n)),
            parse_varint(s.subrange(n as int, s.len() as int)) == Ok::<(u64, nat), DecodeError>((v, k)),
            n + k == s.len(),
        ensures
            self.merge_from(s) == Ok::<FieldOptionsModel, DecodeError>((FieldOptionsModel { packed: v != 0, _has: self._has.update(1, true), ..self })),
    {
        reveal(FieldOptionsModel::merge_field);
        self.lemma_single_field(s, 2, wt, n);
    }

    /// A field numbered 6 holds `jstype`: decoding a buffer that holds just such a field,
    /// whatever its wire type, sets `jstype` to the low 32 bits of the varint, marks it present,
    /// and leaves every other field as it was.
    pub proof fn lemma_decode_jstype(self, s: Seq<u8>, wt: u32, n: nat, v: u64, k: nat)
        requires
            parse_tag(s) == Ok::<(u32, u32, nat), DecodeError>((6, wt, n)),
            parse_varint(s.subrange(n as int, s.len() as int)) == Ok::<(u64, nat), DecodeError>((v, k)),
            n + k == s.len(),
        ensures
            self.merge_from(s) == Ok::<FieldOptionsModel, DecodeError>((FieldOptionsModel { jstype: pb::FieldOptions_::JSType(varint_as_i32(v)), _has: self._has.update(2, true), ..self })),
    {
        reveal(FieldOptionsModel::merge_field);
        self.lemma_single_field(s, 6, wt, n);
    }

    /// A field numbered 5 holds `lazy`: decoding a buffer that holds just such a field,
    /// whatever its wire type, sets `lazy` to whether the varint is nonzero, marks it present,
    /// and leaves every other field as it was.
    pub proof fn lemma_decode_lazy(self, s: Seq<u8>, wt: u32, n: nat, v: u64, k: nat)
        requires
            parse_tag(s) == Ok::<(u32, u32, nat), DecodeError>((5, wt, n)),
            parse_varint(s.subrange(n as int, s.len() as int)) == Ok::<(u64, nat), DecodeError>((v, k)),
            n + k == s.len(),
        ensures
            self.merge_from(s) == Ok::<FieldOptionsModel, DecodeError>((FieldOptionsModel { lazy: v != 0, _has: self._has.update(3, true), ..self })),
    {
        reveal(FieldOptionsModel::merge_field);
        self.lemma_single_field(s, 5, wt, n);
    }

    /// A field numbered 15 holds `unverified_lazy`: decoding a buffer that holds just such a field,
    /// whatever its wire type, sets `unverified_lazy` to whether the varint is nonzero, marks it present,
    /// and leaves every other field as it was.
    pub proof fn lemma_decode_unverified_lazy(self, s: Seq<u8>, wt: u32, n: nat, v: u64, k: nat)
        requires
            parse_tag(s) == Ok::<(u32, u32, nat), DecodeError>((15, wt, n)),
            parse_varint(s.subrange(n as int, s.len() as int)) == Ok::<(u64, nat), DecodeError>((v, k)),
            n + k == s.len(),
        ensures
            self.merge_from(s) == Ok::<FieldOptionsModel, DecodeError>((FieldOptionsModel { unverified_lazy: v != 0, _has: self._has.update(4, true), ..self })),
    {
        reveal(FieldOptionsModel::merge_field);
        self.lemma_single_field(s, 15, wt, n);
    }

    /// A field numbered 3 holds `deprecated`: decoding a buffer that holds just such a field,
    /// whatever its wire type, sets `deprecated` to whether the varint is nonzero, marks it present,
    /// and leaves every other field as it was.
    pub proof fn lemma_decode_deprecated(self, s: Seq<u8>, wt: u32, n: nat, v: u64, k: nat)
        requires
            parse_tag(s) == Ok::<(u32, u32, nat), DecodeError>((3, wt, n)),
            parse_varint(s.subrange(n as int, s.len() as int)) == Ok::<(u64, nat), DecodeError>((v, k)),
            n + k == s.len(),
        ensures
            self.merge_from(s) == Ok::<FieldOptionsModel, DecodeError>((FieldOptionsModel { deprecated: v != 0, _has: self._has.update(5, true), ..self })),
    {
        reveal(FieldOptionsModel::merge_field);
        self.lemma_single_field(s, 3, wt, n);
    }

    /// A field numbered 10 holds `weak`: decoding a buffer that holds just such a field,
    /// whatever its wire type, sets `weak` to whether the varint is nonzero, marks it present,
    /// and leaves every other field as it was.
    pub proof fn lemma_decode_weak(self, s: Seq<u8>, wt: u32, n: nat, v: u64, k: nat)
        requires
            parse_tag(s) == Ok::<(u32, u32, nat), DecodeError>((10, wt, n)),
            parse_varint(s.subrange(n as int, s.len() as int)) == Ok::<(u64, nat), DecodeError>((v, k)),
            n + k == s.len(),
        ensures
            self.merge_from(s) == Ok::<FieldOptionsModel, DecodeError>((FieldOptionsModel { weak: v != 0, _has: self._has.update(6, true), ..self })),
    {
        reveal(FieldOptionsModel::merge_field);
        self.lemma_single_field(s, 10, wt, n);
    }

    /// A field numbered 16 holds `debug_redact`: decoding a buffer that holds just such a field,
    /// whatever its wire type, sets `debug_redact` to whether the varint is nonzero, marks it present,
    /// and leaves every other field as it was.
    pub proof fn lemma_decode_debug_redact(self, s: Seq<u8>, wt: u32, n: nat, v: u64, k: nat)
        requires
            parse_tag(s) == Ok::<(u32, u32, nat), DecodeError>((16, wt, n)),
            parse_varint(s.subrange(n as int, s.len() as int)) == Ok::<(u64, nat), DecodeError>((v, k)),
            n + k == s.len(),
        ensures
            self.merge_from(s) == Ok::<FieldOptionsModel, DecodeError>((FieldOptionsModel { debug_redact: v != 0, _has: self._has.update(7, true), ..self })),
    {
        reveal(FieldOptionsModel::merge_field);
        self.lemma_single_field(s, 16, wt, n);
    }

    /// A field numbered 17 holds `retention`: decoding a buffer that holds just such a field,
    /// whatever its wire type, sets `retention` to the low 32 bits of the varint, marks it present,
    /// and leaves every other field as it was.
    pub proof fn lemma_decode_retention(self, s: Seq<u8>, wt: u32, n: nat, v: u64, k: nat)
        requires
            parse_tag(s) == Ok::<(u32, u32, nat), DecodeError>((17, wt, n)),
            parse_varint(s.subrange(n as int, s.len() as int)) == Ok::<(u64, nat), DecodeError>((v, k)),
            n + k == s.len(),
        ensures
            self.merge_from(s) == Ok::<FieldOptionsModel, DecodeError>((FieldOptionsModel { retention: pb::FieldOptions_::OptionRetention(varint_as_i32(v)), _has: self._has.update(8, true), ..self })),
    {
        reveal(FieldOptionsModel::merge_field);
        self.lemma_single_field(s, 17, wt, n);
    }

    /// A length-delimited field numbered 19 holds packed values of `targets`: decoding a buffer that
    /// holds just such a field appends them, in order, to `targets`,
    /// and leaves every other field as it was.
    pub proof fn lemma_decode_targets_packed(self, s: Seq<u8>, wt: u32, n: nat, p: Seq<u8>, k: nat, vs: Seq<i32>)
        requires
            parse_tag(s) == Ok::<(u32, u32, nat), DecodeError>((19, wt, n)),
            wt == WIRE_TYPE_LEN,
            parse_len(s.subrange(n as int, s.len() as int)) == Ok::<(Seq<u8>, nat), DecodeError>((p, k)),
            parse_packed_i32(p) == Ok::<Seq<i32>, DecodeError>(vs),
            n + k == s.len(),
        ensures
            self.merge_from(s) == Ok::<FieldOptionsModel, DecodeError>((FieldOptionsModel { targets: self.targets + vs.map_values(|x: i32| pb::FieldOptions_::OptionTargetType(x)), ..self })),
    {
        reveal(FieldOptionsModel::merge_field);
        self.lemma_single_field(s, 19, wt, n);
    }

    /// Any other field numbered 19 holds one value of `targets`: decoding a buffer that holds
    /// just such a field appends the low 32 bits of its varint to `targets`,
    /// and leaves every other field as it was.
    pub proof fn lemma_decode_targets(self, s: Seq<u8>, wt: u32, n: nat, v: u64, k: nat)
        requires
            parse_tag(s) == Ok::<(u32, u32, nat), DecodeError>((19, wt, n)),
            wt != WIRE_TYPE_LEN,
            parse_varint(s.subrange(n as int, s.len() as int)) == Ok::<(u64, nat), DecodeError>((v, k)),
            n + k == s.len(),
        ensures
            self.merge_from(s) == Ok::<FieldOptionsModel, DecodeError>((FieldOptionsModel { targets: self.targets.push(pb::FieldOptions_::OptionTargetType(varint_as_i32(v))), ..self })),
    {
        reveal(FieldOptionsModel::merge_field);
        self.lemma_single_field(s, 19, wt, n);
    }

    /// A field numbered 20 holds `edition_defaults`: decoding a buffer that holds just such a field,
    /// whatever its wire type, decodes its payload as a new message and appends it to `edition_defaults`,
    /// and leaves every other field as it was.
    pub proof fn lemma_decode_edition_defaults(self, s: Seq<u8>, wt: u32, n: nat, l: u64, m: nat, x: pb::FieldOptions_::EditionDefault_::EditionDefaultModel)
        requires
            parse_tag(s) == Ok::<(u32, u32, nat), DecodeError>((20, wt, n)),
            parse_varint(s.subrange(n as int, s.len() as int)) == Ok::<(u64, nat), DecodeError>((l, m)),
            n + m + l == s.len(),
            pb::FieldOptions_::EditionDefault_::EditionDefaultModel::empty().merge_from(s.subrange((n + m) as int, s.len() as int)) == Ok::<pb::FieldOptions_::EditionDefault_::EditionDefaultModel, DecodeError>(x),
        ensures
            self.merge_from(s) == Ok::<FieldOptionsModel, DecodeError>((FieldOptionsModel { edition_defaults: self.edition_defaults.push(x), ..self })),
    {
        reveal(FieldOptionsModel::merge_field);
        lemma_tag_bounds(s);
        lemma_varint_bounds(s.subrange(n as int, s.len() as int));
        assert(s.subrange(n as int, s.len() as int).subrange(m as int, s.subrange(n as int, s.len() as int).len() as int) =~= s.subrange((n + m) as int, s.len() as int));
        pb::FieldOptions_::EditionDefault_::EditionDefaultModel::empty().lemma_stream_bounds(s.subrange((n + m) as int, s.len() as int), l as int);
        self.lemma_single_field(s, 20, wt, n);
    }

    /// A field numbered 21 holds `features`: decoding a buffer that holds just such a field,
    /// whatever its wire type, merges its payload into `features`, marks it present,
    /// and leaves every other field as it was.
    pub proof fn lemma_decode_features(self, s: Seq<u8>, wt: u32, n: nat, l: u64, m: nat, x: pb::FeatureSet_::FeatureSetModel)
        requires
            parse_tag(s) == Ok::<(u32, u32, nat), DecodeError>((21, wt, n)),
            parse_varint(s.subrange(n as int, s.len() as int)) == Ok::<(u64, nat), DecodeError>((l, m)),
            n + m + l == s.len(),
            self.features.merge_from(s.subrange((n + m) as int, s.len() as int)) == Ok::<pb::FeatureSet_::FeatureSetModel, DecodeError>(x),
        ensures
            self.merge_from(s) == Ok::<FieldOptionsModel, DecodeError>((FieldOptionsModel { features: x, _has: self._has.update(9, true), ..self })),
    {
        reveal(FieldOptionsModel::merge_field);
        lemma_tag_bounds(s);
        lemma_varint_bounds(s.subrange(n as int, s.len() as int));
        assert(s.subrange(n as int, s.len() as int).subrange(m as int, s.subrange(n as int, s.len() as int).len() as int) =~= s.subrange((n + m) as int, s.len() as int));
        self.features.lemma_stream_bounds(s.subrange((n + m) as int, s.len() as int), l as int);
        self.lemma_single_field(s, 21, wt, n);
    }

    /// A field numbered 22 holds `feature_support`: decoding a buffer that holds just such a field,
    /// whatever its wire type, merges its payload into `feature_support`, marks it present,
    /// and leaves every other field as it was.
    pub proof fn lemma_decode_feature_support(self, s: Seq<u8>, wt: u32, n: nat, l: u64, m: nat, x: pb::FieldOptions_::FeatureSupport_::FeatureSupportModel)
        requires
            parse_tag(s) == Ok::<(u32, u32, nat), DecodeError>((22, wt, n)),
            parse_varint(s.subrange(n as int, s.len() as int)) == Ok::<(u64, nat), DecodeError>((l, m)),
            n + m + l == s.len(),
            self.feature_support.merge_from(s.subrange((n + m) as int, s.len() as int)) == Ok::<pb::FieldOptions_::FeatureSupport_::FeatureSupportModel, DecodeError>(x),
        ensures
            self.merge_from(s) == Ok::<FieldOptionsModel, DecodeError>((FieldOptionsModel { feature_support: x, _has: self._has.update(10, true), ..self })),
    {
        reveal(FieldOptionsModel::merge_field);
        lemma_tag_bounds(s);
        lemma_varint_bounds(s.subrange(n as int, s.len() as int));
        assert(s.subrange(n as int, s.len() as int).subrange(m as int, s.subrange(n as int, s.len() as int).len() as int) =~= s.subrange((n + m) as int, s.len() as int));
        self.feature_support.lemma_stream_bounds(s.subrange((n + m) as int, s.len() as int), l as int);
        self.lemma_single_field(s, 22, wt, n);
    }

    /// A field numbered 999 holds `uninterpreted_option`: decoding a buffer that holds just such a field,
    /// whatever its wire type, decodes its payload as a new message and appends it to `uninterpreted_option`,
    /// and leaves every other field as it was.
    pub proof fn lemma_decode_uninterpreted_option(self, s: Seq<u8>, wt: u32, n: nat, l: u64, m: nat, x: pb::UninterpretedOption_::UninterpretedOptionModel)
        requires
            parse_tag(s) == Ok::<(u32, u32, nat), DecodeError>((999, wt, n)),
            parse_varint(s.subrange(n as int, s.len() as int)) == Ok::<(u64, nat), DecodeError>((l, m)),
            n + m + l == s.len(),
            pb::UninterpretedOption_::UninterpretedOptionModel::empty().merge_from(s.subrange((n + m) as int, s.len() as int)) == Ok::<pb::UninterpretedOption_::UninterpretedOptionModel, DecodeError>(x),
        ensures
            self.merge_from(s) == Ok::<FieldOptionsModel, DecodeError>((FieldOptionsModel { uninterpreted_option: self.uninterpreted_option.push(x), ..self })),
    {
        reveal(FieldOptionsModel::merge_field);
        lemma_tag_bounds(s);
        lemma_varint_bounds(s.subrange(n as int, s.len() as int));
        assert(s.subrange(n as int, s.len() as int).subrange(m as int, s.subrange(n as int, s.len() as int).len() as int) =~= s.subrange((n + m) as int, s.len() as int));
        pb::UninterpretedOption_::UninterpretedOptionModel::empty().lemma_stream_bounds(s.subrange((n + m) as int, s.len() as int), l as int);
        self.lemma_single_field(s, 999, wt, n);
    }

    /// A field whose number this message does not define is skipped by its wire type:
    /// decoding a buffer that holds just such a field leaves the message as it was.
    pub proof fn lemma_decode_unknown(self, s: Seq<u8>, num: u32, wt: u32, n: nat, k: nat)
        requires
            parse_tag(s) == Ok::<(u32, u32, nat), DecodeError>((num, wt, n)),
            num != 0,
            num != 1 && num != 2 && num != 6 && num != 5 && num != 15 && num != 3 && num != 10 && num != 16 && num != 17 && num != 19 && num != 20 && num != 21 && num != 22 && num != 999,
            skip_len(s.subrange(n as int, s.len() as int), wt) == Ok::<nat, DecodeError>(k),
            n + k == s.len(),
        ensures
            self.merge_from(s) == Ok::<FieldOptionsModel, DecodeError>(self),
    {
        reveal(FieldOptionsModel::merge_field);
        self.lemma_single_field(s, num, wt, n);
    }
}

impl Default for FieldOptions {
    fn default() -> (r: Self)
        ensures
            r@ == FieldOptionsModel::empty(),
    {
        let r = FieldOptions {
            ctype: pb::FieldOptions_::CType::default(),
            packed: false,
            jstype: pb::FieldOptions_::JSType::default(),
            lazy: false,
            unverified_lazy: false,
            deprecated: false,
            weak: false,
            debug_redact: false,
            retention: pb::FieldOptions_::OptionRetention::default(),
            targets: Vec::new(),
            edition_defaults: Vec::new(),
            features: pb::FeatureSet_::FeatureSet::default(),
            feature_support: pb::FieldOptions_::FeatureSupport_::FeatureSupport::default(),
            uninterpreted_option: Vec::new(),
            _has: _Hazzer::default(),
        };
        assert(r@ =~= FieldOptionsModel::empty());
        r
    }
}

impl FieldOptions {
    ///Return a reference to `ctype` as an `Option`
    #[inline]
    pub fn ctype(&self) -> (r: Option<&pb::FieldOptions_::CType>)
        ensures
            r == (if self._has@[0] {
                Some(&self.ctype)
            } else {
                None
            }),
    {
        if self._has.ctype() {
            Some(&self.ctype)
        } else {
            None
        }
    }

    ///Return a mutable reference to `ctype` as an `Option`
    #[inline]
    pub fn mut_ctype(&mut self) -> (r: Option<&mut pb::FieldOptions_::CType>)
        ensures
            old(self)._has@[0] ==> r is Some && *r->0 == old(self).ctype && final(self).ctype
                == *final(r->0) && *final(self) == (FieldOptions { ctype: final(self).ctype, ..*old(self) }),
            !old(self)._has@[0] ==> r is None && *final(self) == *old(self),
    {
        if self._has.ctype() {
            Some(&mut self.ctype)
        } else {
            None
        }
    }

    ///Set the value and presence of `ctype`
    #[inline]
    pub fn set_ctype(&mut self, value: pb::FieldOptions_::CType) -> (r: &mut Self)
        ensures
            r._has@ == old(self)._has@.update(0, true),
            *r == (FieldOptions { ctype: value, _has: r._has, ..*old(self) }),
            *final(self) == *final(r),
    {
        self._has.set_ctype();
        self.ctype = value;
        self
    }

    ///Clear the presence of `ctype`
    #[inline]
    pub fn clear_ctype(&mut self) -> (r: &mut Self)
        ensures
            r._has@ == old(self)._has@.update(0, false),
            *r == (FieldOptions { _has: r._has, ..*old(self) }),
            *final(self) == *final(r),
    {
        self._has.clear_ctype();
        self
    }

    ///Take the value of `ctype` and clear its presence
    #[inline]
    pub fn take_ctype(&mut self) -> (r: Option<pb::FieldOptions_::CType>)
        ensures
            r == (if old(self)._has@[0] {
                Some(old(self).ctype)
            } else {
                None
            }),
            final(self)._has@ == old(self)._has@.update(0, false),
            old(self)._has@[0] ==> final(self).ctype == pb::FieldOptions_::CType(0),
            !old(self)._has@[0] ==> final(self).ctype == old(self).ctype,
            *final(self) == (FieldOptions { ctype: final(self).ctype, _has: final(self)._has, ..*old(self) }),
    {
        let val = if self._has.ctype() {
            let mut v: pb::FieldOptions_::CType = pb::FieldOptions_::CType::default();
            std::mem::swap(&mut self.ctype, &mut v);
            Some(v)
        } else {
            None
        };
        self._has.clear_ctype();
        val
    }

    ///Builder method that sets the value of `ctype`. Useful for initializing the message.
    #[inline]
    pub fn init_ctype(self, value: pb::FieldOptions_::CType) -> (r: Self)
        ensures
            r._has@ == self._has@.update(0, true),
            r == (FieldOptions { ctype: value, _has: r._has, ..self }),
    {
        let mut s = self;
        s.set_ctype(value);
        s
    }

    ///Return a reference to `packed` as an `Option`
    #[inline]
    pub fn packed(&self) -> (r: Option<&bool>)
        ensures
            r == (if self._has@[1] {
                Some(&self.packed)
            } else {
                None
            }),
    {
        if self._has.packed() {
            Some(&self.packed)
        } else {
            None
        }
    }

    ///Return a mutable reference to `packed` as an `Option`
    #[inline]
    pub fn mut_packed(&mut self) -> (r: Option<&mut bool>)
        ensures
            old(self)._has@[1] ==> r is Some && *r->0 == old(self).packed && final(self).packed
                == *final(r->0) && *final(self) == (FieldOptions { packed: final(self).packed, ..*old(self) }),
            !old(self)._has@[1] ==> r is None && *final(self) == *old(self),
    {
        if self._has.packed() {
            Some(&mut self.packed)
        } else {
            None
        }
    }

    ///Set the value and presence of `packed`
    #[inline]
    pub fn set_packed(&mut self, value: bool) -> (r: &mut Self)
        ensures
            r._has@ == old(self)._has@.update(1, true),
            *r == (FieldOptions { packed: value, _has: r._has, ..*old(self) }),
            *final(self) == *final(r),
    {
        self._has.set_packed();
        self.packed = value;
        self
    }

    ///Clear the presence of `packed`
    #[inline]
    pub fn clear_packed(&mut self) -> (r: &mut Self)
        ensures
            r._has@ == old(self)._has@.update(1, false),
            *r == (FieldOptions { _has: r._has, ..*old(self) }),
            *final(self) == *final(r),
    {
        self._has.clear_packed();
        self
    }

    ///Take the value of `packed` and clear its presence
    #[inline]
    pub fn take_packed(&mut self) -> (r: Option<bool>)
        ensures
            r == (if old(self)._has@[1] {
                Some(old(self).packed)
            } else {
                None
            }),
            final(self)._has@ == old(self)._has@.update(1, false),
            old(self)._has@[1] ==> !final(self).packed,
            !old(self)._has@[1] ==> final(self).packed == old(self).packed,
            *final(self) == (FieldOptions { packed: final(self).packed, _has: final(self)._has, ..*old(self) }),
    {
        let val = if self._has.packed() {
            let mut v: bool = false;
            std::mem::swap(&mut self.packed, &mut v);
            Some(v)
        } else {
            None
        };
        self._has.clear_packed();
        val
    }

    ///Builder method that sets the value of `packed`. Useful for initializing the message.
    #[inline]
    pub fn init_packed(self, value: bool) -> (r: Self)
        ensures
            r._has@ == self._has@.update(1, true),
            r == (FieldOptions { packed: value, _has: r._has, ..self }),
    {
        let mut s = self;
        s.set_packed(value);
        s
    }

    ///Return a reference to `jstype` as an `Option`
    #[inline]
    pub fn jstype(&self) -> (r: Option<&pb::FieldOptions_::JSType>)
        ensures
            r == (if self._has@[2] {
                Some(&self.jstype)
            } else {
                None
            }),
    {
        if self._has.jstype() {
            Some(&self.jstype)
        } else {
            None
        }
    }

    ///Return a mutable reference to `jstype` as an `Option`
    #[inline]
    pub fn mut_jstype(&mut self) -> (r: Option<&mut pb::FieldOptions_::JSType>)
        ensures
            old(self)._has@[2] ==> r is Some && *r->0 == old(self).jstype && final(self).jstype
                == *final(r->0) && *final(self) == (FieldOptions { jstype: final(self).jstype, ..*old(self) }),
            !old(self)._has@[2] ==> r is None && *final(self) == *old(self),
    {
        if self._has.jstype() {
            Some(&mut self.jstype)
        } else {
            None
        }
    }

    ///Set the value and presence of `jstype`
    #[inline]
    pub fn set_jstype(&mut self, value: pb::FieldOptions_::JSType) -> (r: &mut Self)
        ensures
            r._has@ == old(self)._has@.update(2, true),
            *r == (FieldOptions { jstype: value, _has: r._has, ..*old(self) }),
            *final(self) == *final(r),
    {
        self._has.set_jstype();
        self.jstype = value;
        self
    }

    ///Clear the presence of `jstype`
    #[inline]
    pub fn clear_jstype(&mut self) -> (r: &mut Self)
        ensures
            r._has@ == old(self)._has@.update(2, false),
            *r == (FieldOptions { _has: r._has, ..*old(self) }),
            *final(self) == *final(r),
    {
        self._has.clear_jstype();
        self
    }

    ///Take the value of `jstype` and clear its presence
    #[inline]
    pub fn take_jstype(&mut self) -> (r: Option<pb::FieldOptions_::JSType>)
        ensures
            r == (if old(self)._has@[2] {
                Some(old(self).jstype)
            } else {
                None
            }),
            final(self)._has@ == old(self)._has@.update(2, false),
            old(self)._has@[2] ==> final(self).jstype == pb::FieldOptions_::JSType(0),
            !old(self)._has@[2] ==> final(self).jstype == old(self).jstype,
            *final(self) == (FieldOptions { jstype: final(self).jstype, _has: final(self)._has, ..*old(self) }),
    {
        let val = if self._has.jstype() {
            let mut v: pb::FieldOptions_::JSType = pb::FieldOptions_::JSType::default();
            std::mem::swap(&mut self.jstype, &mut v);
            Some(v)
        } else {
            None
        };
        self._has.clear_jstype();
        val
    }

    ///Builder method that sets the value of `jstype`. Useful for initializing the message.
    #[inline]
    pub fn init_jstype(self, value: pb::FieldOptions_::JSType) -> (r: Self)
        ensures
            r._has@ == self._has@.update(2, true),
            r == (FieldOptions { jstype: value, _has: r._has, ..self }),
    {
        let mut s = self;
        s.set_jstype(value);
        s
    }

    ///Return a reference to `lazy` as an `Option`
    #[inline]
    pub fn lazy(&self) -> (r: Option<&bool>)
        ensures
            r == (if self._has@[3] {
                Some(&self.lazy)
            } else {
                None
            }),
    {
        if self._has.lazy() {
            Some(&self.lazy)
        } else {
            None
        }
    }

    ///Return a mutable reference to `lazy` as an `Option`
    #[inline]
    pub fn mut_lazy(&mut self) -> (r: Option<&mut bool>)
        ensures
            old(self)._has@[3] ==> r is Some && *r->0 == old(self).lazy && final(self).lazy
                == *final(r->0) && *final(self) == (FieldOptions { lazy: final(self).lazy, ..*old(self) }),
            !old(self)._has@[3] ==> r is None && *final(self) == *old(self),
    {
        if self._has.lazy() {
            Some(&mut self.lazy)
        } else {
            None
        }
    }

    ///Set the value and presence of `lazy`
    #[inline]
    pub fn set_lazy(&mut self, value: bool) -> (r: &mut Self)
        ensures
            r._has@ == old(self)._has@.update(3, true),
            *r == (FieldOptions { lazy: value, _has: r._has, ..*old(self) }),
            *final(self) == *final(r),
    {
        self._has.set_lazy();
        self.lazy = value;
        self
    }

    ///Clear the presence of `lazy`
    #[inline]
    pub fn clear_lazy(&mut self) -> (r: &mut Self)
        ensures
            r._has@ == old(self)._has@.update(3, false),
            *r == (FieldOptions { _has: r._has, ..*old(self) }),
            *final(self) == *final(r),
    {
        self._has.clear_lazy();
        self
    }

    ///Take the value of `lazy` and clear its presence
    #[inline]
    pub fn take_lazy(&mut self) -> (r: Option<bool>)
        ensures
            r == (if old(self)._has@[3] {
                Some(old(self).lazy)
            } else {
                None
            }),
            final(self)._has@ == old(self)._has@.update(3, false),
            old(self)._has@[3] ==> !final(self).lazy,
            !old(self)._has@[3] ==> final(self).lazy == old(self).lazy,
            *final(self) == (FieldOptions { lazy: final(self).lazy, _has: final(self)._has, ..*old(self) }),
    {
        let val = if self._has.lazy() {
            let mut v: bool = false;
            std::mem::swap(&mut self.lazy, &mut v);
            Some(v)
        } else {
            None
        };
        self._has.clear_lazy();
        val
    }

    ///Builder method that sets the value of `lazy`. Useful for initializing the message.
    #[inline]
    pub fn init_lazy(self, value: bool) -> (r: Self)
        ensures
            r._has@ == self._has@.update(3, true),
            r == (FieldOptions { lazy: value, _has: r._has, ..self }),
    {
        let mut s = self;
        s.set_lazy(value);
        s
    }

    ///Return a reference to `unverified_lazy` as an `Option`
    #[inline]
    pub fn unverified_lazy(&self) -> (r: Option<&bool>)
        ensures
            r == (if self._has@[4] {
                Some(&self.unverified_lazy)
            } else {
                None
            }),
    {
        if self._has.unverified_lazy() {
            Some(&self.unverified_lazy)
        } else {
            None
        }
    }

    ///Return a mutable reference to `unverified_lazy` as an `Option`
    #[inline]
    pub fn mut_unverified_lazy(&mut self) -> (r: Option<&mut bool>)
        ensures
            old(self)._has@[4] ==> r is Some && *r->0 == old(self).unverified_lazy && final(self).unverified_lazy
                == *final(r->0) && *final(self) == (FieldOptions { unverified_lazy: final(self).unverified_lazy, ..*old(self) }),
            !old(self)._has@[4] ==> r is None && *final(self) == *old(self),
    {
        if self._has.unverified_lazy() {
            Some(&mut self.unverified_lazy)
        } else {
            None
        }
    }

    ///Set the value and presence of `unverified_lazy`
    #[inline]
    pub fn set_unverified_lazy(&mut self, value: bool) -> (r: &mut Self)
        ensures
            r._has@ == old(self)._has@.update(4, true),
            *r == (FieldOptions { unverified_lazy: value, _has: r._has, ..*old(self) }),
            *final(self) == *final(r),
    {
        self._has.set_unverified_lazy();
        self.unverified_lazy = value;
        self
    }

    ///Clear the presence of `unverified_lazy`
    #[inline]
    pub fn clear_unverified_lazy(&mut self) -> (r: &mut Self)
        ensures
            r._has@ == old(self)._has@.update(4, false),
            *r == (FieldOptions { _has: r._has, ..*old(self) }),
            *final(self) == *final(r),
    {
        self._has.clear_unverified_lazy();
        self
    }

    ///Take the value of `unverified_lazy` and clear its presence
    #[inline]
    pub fn take_unverified_lazy(&mut self) -> (r: Option<bool>)
        ensures
            r == (if old(self)._has@[4] {
                Some(old(self).unverified_lazy)
            } else {
                None
            }),
            final(self)._has@ == old(self)._has@.update(4, false),
            old(self)._has@[4] ==> !final(self).unverified_lazy,
            !old(self)._has@[4] ==> final(self).unverified_lazy == old(self).unverified_lazy,
            *final(self) == (FieldOptions { unverified_lazy: final(self).unverified_lazy, _has: final(self)._has, ..*old(self) }),
    {
        let val = if self._has.unverified_lazy() {
            let mut v: bool = false;
            std::mem::swap(&mut self.unverified_lazy, &mut v);
            Some(v)
        } else {
            None
        };
        self._has.clear_unverified_lazy();
        val
    }

    ///Builder method that sets the value of `unverified_lazy`. Useful for initializing the message.
    #[inline]
    pub fn init_unverified_lazy(self, value: bool) -> (r: Self)
        ensures
            r._has@ == self._has@.update(4, true),
            r == (FieldOptions { unverified_lazy: value, _has: r._has, ..self }),
    {
        let mut s = self;
        s.set_unverified_lazy(value);
        s
    }

    ///Return a reference to `deprecated` as an `Option`
    #[inline]
    pub fn deprecated(&self) -> (r: Option<&bool>)
        ensures
            r == (if self._has@[5] {
                Some(&self.deprecated)
            } else {
                None
            }),
    {
        if self._has.deprecated() {
            Some(&self.deprecated)
        } else {
            None
        }
    }

    ///Return a mutable reference to `deprecated` as an `Option`
    #[inline]
    pub fn mut_deprecated(&mut self) -> (r: Option<&mut bool>)
        ensures
            old(self)._has@[5] ==> r is Some && *r->0 == old(self).deprecated && final(self).deprecated
                == *final(r->0) && *final(self) == (FieldOptions { deprecated: final(self).deprecated, ..*old(self) }),
            !old(self)._has@[5] ==> r is None && *final(self) == *old(self),
    {
        if self._has.deprecated() {
            Some(&mut self.deprecated)
        } else {
            None
        }
    }

    ///Set the value and presence of `deprecated`
    #[inline]
    pub fn set_deprecated(&mut self, value: bool) -> (r: &mut Self)
        ensures
            r._has@ == old(self)._has@.update(5, true),
            *r == (FieldOptions { deprecated: value, _has: r._has, ..*old(self) }),
            *final(self) == *final(r),
    {
        self._has.set_deprecated();
        self.deprecated = value;
        self
    }

    ///Clear the presence of `deprecated`
    #[inline]
    pub fn clear_deprecated(&mut self) -> (r: &mut Self)
        ensures
            r._has@ == old(self)._has@.update(5, false),
            *r == (FieldOptions { _has: r._has, ..*old(self) }),
            *final(self) == *final(r),
    {
        self._has.clear_deprecated();
        self
    }

    ///Take the value of `deprecated` and clear its presence
    #[inline]
    pub fn take_deprecated(&mut self) -> (r: Option<bool>)
        ensures
            r == (if old(self)._has@[5] {
                Some(old(self).deprecated)
            } else {
                None
            }),
            final(self)._has@ == old(self)._has@.update(5, false),
            old(self)._has@[5] ==> !final(self).deprecated,
            !old(self)._has@[5] ==> final(self).deprecated == old(self).deprecated,
            *final(self) == (FieldOptions { deprecated: final(self).deprecated, _has: final(self)._has, ..*old(self) }),
    {
        let val = if self._has.deprecated() {
            let mut v: bool = false;
            std::mem::swap(&mut self.deprecated, &mut v);
            Some(v)
        } else {
            None
        };
        self._has.clear_deprecated();
        val
    }

    ///Builder method that sets the value of `deprecated`. Useful for initializing the message.
    #[inline]
    pub fn init_deprecated(self, value: bool) -> (r: Self)
        ensures
            r._has@ == self._has@.update(5, true),
            r == (FieldOptions { deprecated: value, _has: r._has, ..self }),
    {
        let mut s = self;
        s.set_deprecated(value);
        s
    }

    ///Return a reference to `weak` as an `Option`
    #[inline]
    pub fn weak(&self) -> (r: Option<&bool>)
        ensures
            r == (if self._has@[6] {
                Some(&self.weak)
            } else {
                None
            }),
    {
        if self._has.weak() {
            Some(&self.weak)
        } else {
            None
        }
    }

    ///Return a mutable reference to `weak` as an `Option`
    #[inline]
    pub fn mut_weak(&mut self) -> (r: Option<&mut bool>)
        ensures
            old(self)._has@[6] ==> r is Some && *r->0 == old(self).weak && final(self).weak
                == *final(r->0) && *final(self) == (FieldOptions { weak: final(self).weak, ..*old(self) }),
            !old(self)._has@[6] ==> r is None && *final(self) == *old(self),
    {
        if self._has.weak() {
            Some(&mut self.weak)
        } else {
            None
        }
    }

    ///Set the value and presence of `weak`
    #[inline]
    pub fn set_weak(&mut self, value: bool) -> (r: &mut Self)
        ensures
            r._has@ == old(self)._has@.update(6, true),
            *r == (FieldOptions { weak: value, _has: r._has, ..*old(self) }),
            *final(self) == *final(r),
    {
        self._has.set_weak();
        self.weak = value;
        self
    }

    ///Clear the presence of `weak`
    #[inline]
    pub fn clear_weak(&mut self) -> (r: &mut Self)
        ensures
            r._has@ == old(self)._has@.update(6, false),
            *r == (FieldOptions { _has: r._has, ..*old(self) }),
            *final(self) == *final(r),
    {
        self._has.clear_weak();
        self
    }

    ///Take the value of `weak` and clear its presence
    #[inline]
    pub fn take_weak(&mut self) -> (r: Option<bool>)
        ensures
            r == (if old(self)._has@[6] {
                Some(old(self).weak)
            } else {
                None
            }),
            final(self)._has@ == old(self)._has@.update(6, false),
            old(self)._has@[6] ==> !final(self).weak,
            !old(self)._has@[6] ==> final(self).weak == old(self).weak,
            *final(self) == (FieldOptions { weak: final(self).weak, _has: final(self)._has, ..*old(self) }),
    {
        let val = if self._has.weak() {
            let mut v: bool = false;
            std::mem::swap(&mut self.weak, &mut v);
            Some(v)
        } else {
            None
        };
        self._has.clear_weak();
        val
    }

    ///Builder method that sets the value of `weak`. Useful for initializing the message.
    #[inline]
    pub fn init_weak(self, value: bool) -> (r: Self)
        ensures
            r._has@ == self._has@.update(6, true),
            r == (FieldOptions { weak: value, _has: r._has, ..self }),
    {
        let mut s = self;
        s.set_weak(value);
        s
    }

    ///Return a reference to `debug_redact` as an `Option`
    #[inline]
    pub fn debug_redact(&self) -> (r: Option<&bool>)
        ensures
            r == (if self._has@[7] {
                Some(&self.debug_redact)
            } else {
                None
            }),
    {
        if self._has.debug_redact() {
            Some(&self.debug_redact)
        } else {
            None
        }
    }

    ///Return a mutable reference to `debug_redact` as an `Option`
    #[inline]
    pub fn mut_debug_redact(&mut self) -> (r: Option<&mut bool>)
        ensures
            old(self)._has@[7] ==> r is Some && *r->0 == old(self).debug_redact && final(self).debug_redact
                == *final(r->0) && *final(self) == (FieldOptions { debug_redact: final(self).debug_redact, ..*old(self) }),
            !old(self)._has@[7] ==> r is None && *final(self) == *old(self),
    {
        if self._has.debug_redact() {
            Some(&mut self.debug_redact)
        } else {
            None
        }
    }

    ///Set the value and presence of `debug_redact`
    #[inline]
    pub fn set_debug_redact(&mut self, value: bool) -> (r: &mut Self)
        ensures
            r._has@ == old(self)._has@.update(7, true),
            *r == (FieldOptions { debug_redact: value, _has: r._has, ..*old(self) }),
            *final(self) == *final(r),
    {
        self._has.set_debug_redact();
        self.debug_redact = value;
        self
    }

    ///Clear the presence of `debug_redact`
    #[inline]
    pub fn clear_debug_redact(&mut self) -> (r: &mut Self)
        ensures
            r._has@ == old(self)._has@.update(7, false),
            *r == (FieldOptions { _has: r._has, ..*old(self) }),
            *final(self) == *final(r),
    {
        self._has.clear_debug_redact();
        self
    }

    ///Take the value of `debug_redact` and clear its presence
    #[inline]
    pub fn take_debug_redact(&mut self) -> (r: Option<bool>)
        ensures
            r == (if old(self)._has@[7] {
                Some(old(self).debug_redact)
            } else {
                None
            }),
            final(self)._has@ == old(self)._has@.update(7, false),
            old(self)._has@[7] ==> !final(self).debug_redact,
            !old(self)._has@[7] ==> final(self).debug_redact == old(self).debug_redact,
            *final(self) == (FieldOptions { debug_redact: final(self).debug_redact, _has: final(self)._has, ..*old(self) }),
    {
        let val = if self._has.debug_redact() {
            let mut v: bool = false;
            std::mem::swap(&mut self.debug_redact, &mut v);
            Some(v)
        } else {
            None
        };
        self._has.clear_debug_redact();
        val
    }

    ///Builder method that sets the value of `debug_redact`. Useful for initializing the message.
    #[inline]
    pub fn init_debug_redact(self, value: bool) -> (r: Self)
        ensures
            r._has@ == self._has@.update(7, true),
            r == (FieldOptions { debug_redact: value, _has: r._has, ..self }),
    {
        let mut s = self;
        s.set_debug_redact(value);
        s
    }

    ///Return a reference to `retention` as an `Option`
    #[inline]
    pub fn retention(&self) -> (r: Option<&pb::FieldOptions_::OptionRetention>)
        ensures
            r == (if self._has@[8] {
                Some(&self.retention)
            } else {
                None
            }),
    {
        if self._has.retention() {
            Some(&self.retention)
        } else {
            None
        }
    }

    ///Return a mutable reference to `retention` as an `Option`
    #[inline]
    pub fn mut_retention(&mut self) -> (r: Option<&mut pb::FieldOptions_::OptionRetention>)
        ensures
            old(self)._has@[8] ==> r is Some && *r->0 == old(self).retention && final(self).retention
                == *final(r->0) && *final(self) == (FieldOptions { retention: final(self).retention, ..*old(self) }),
            !old(self)._has@[8] ==> r is None && *final(self) == *old(self),
    {
        if self._has.retention() {
            Some(&mut self.retention)
        } else {
            None
        }
    }

    ///Set the value and presence of `retention`
    #[inline]
    pub fn set_retention(&mut self, value: pb::FieldOptions_::OptionRetention) -> (r: &mut Self)
        ensures
            r._has@ == old(self)._has@.update(8, true),
            *r == (FieldOptions { retention: value, _has: r._has, ..*old(self) }),
            *final(self) == *final(r),
    {
        self._has.set_retention();
        self.retention = value;
        self
    }

    ///Clear the presence of `retention`
    #[inline]
    pub fn clear_retention(&mut self) -> (r: &mut Self)
        ensures
            r._has@ == old(self)._has@.update(8, false),
            *r == (FieldOptions { _has: r._has, ..*old(self) }),
            *final(self) == *final(r),
    {
        self._has.clear_retention();
        self
    }

    ///Take the value of `retention` and clear its presence
    #[inline]
    pub fn take_retention(&mut self) -> (r: Option<pb::FieldOptions_::OptionRetention>)
        ensures
            r == (if old(self)._has@[8] {
                Some(old(self).retention)
            } else {
                None
            }),
            final(self)._has@ == old(self)._has@.update(8, false),
            old(self)._has@[8] ==> final(self).retention == pb::FieldOptions_::OptionRetention(0),
            !old(self)._has@[8] ==> final(self).retention == old(self).retention,
            *final(self) == (FieldOptions { retention: final(self).retention, _has: final(self)._has, ..*old(self) }),
    {
        let val = if self._has.retention() {
            let mut v: pb::FieldOptions_::OptionRetention = pb::FieldOptions_::OptionRetention::default();
            std::mem::swap(&mut self.retention, &mut v);
            Some(v)
        } else {
            None
        };
        self._has.clear_retention();
        val
    }

    ///Builder method that sets the value of `retention`. Useful for initializing the message.
    #[inline]
    pub fn init_retention(self, value: pb::FieldOptions_::OptionRetention) -> (r: Self)
        ensures
            r._has@ == self._has@.update(8, true),
            r == (FieldOptions { retention: value, _has: r._has, ..self }),
    {
        let mut s = self;
        s.set_retention(value);
        s
    }

    ///Return a reference to `features` as an `Option`
    #[inline]
    pub fn features(&self) -> (r: Option<&pb::FeatureSet_::FeatureSet>)
        ensures
            r == (if self._has@[9] {
                Some(&self.features)
            } else {
                None
            }),
    {
        if self._has.features() {
            Some(&self.features)
        } else {
            None
        }
    }

    ///Return a mutable reference to `features` as an `Option`
    #[inline]
    pub fn mut_features(&mut self) -> (r: Option<&mut pb::FeatureSet_::FeatureSet>)
        ensures
            old(self)._has@[9] ==> r is Some && *r->0 == old(self).features && final(self).features
                == *final(r->0) && *final(self) == (FieldOptions { features: final(self).features, ..*old(self) }),
            !old(self)._has@[9] ==> r is None && *final(self) == *old(self),
    {
        if self._has.features() {
            Some(&mut self.features)
        } else {
            None
        }
    }

    ///Set the value and presence of `features`
    #[inline]
    pub fn set_features(&mut self, value: pb::FeatureSet_::FeatureSet) -> (r: &mut Self)
        ensures
            r._has@ == old(self)._has@.update(9, true),
            *r == (FieldOptions { features: value, _has: r._has, ..*old(self) }),
            *final(self) == *final(r),
    {
        self._has.set_features();
        self.features = value;
        self
    }

    ///Clear the presence of `features`
    #[inline]
    pub fn clear_features(&mut self) -> (r: &mut Self)
        ensures
            r._has@ == old(self)._has@.update(9, false),
            *r == (FieldOptions { _has: r._has, ..*old(self) }),
            *final(self) == *final(r),
    {
        self._has.clear_features();
        self
    }

    ///Take the value of `features` and clear its presence
    #[inline]
    pub fn take_features(&mut self) -> (r: Option<pb::FeatureSet_::FeatureSet>)
        ensures
            r == (if old(self)._has@[9] {
                Some(old(self).features)
            } else {
                None
            }),
            final(self)._has@ == old(self)._has@.update(9, false),
            old(self)._has@[9] ==> final(self).features@ == pb::FeatureSet_::FeatureSetModel::empty(),
            !old(self)._has@[9] ==> final(self).features == old(self).features,
            *final(self) == (FieldOptions { features: final(self).features, _has: final(self)._has, ..*old(self) }),
    {
        let val = if self._has.features() {
            let mut v: pb::FeatureSet_::FeatureSet = pb::FeatureSet_::FeatureSet::default();
            std::mem::swap(&mut self.features, &mut v);
            Some(v)
        } else {
            None
        };
        self._has.clear_features();
        val
    }

    ///Builder method that sets the value of `features`. Useful for initializing the message.
    #[inline]
    pub fn init_features(self, value: pb::FeatureSet_::FeatureSet) -> (r: Self)
        ensures
            r._has@ == self._has@.update(9, true),
            r == (FieldOptions { features: value, _has: r._has, ..self }),
    {
        let mut s = self;
        s.set_features(value);
        s
    }

    ///Return a reference to `feature_support` as an `Option`
    #[inline]
    pub fn feature_support(&self) -> (r: Option<&pb::FieldOptions_::FeatureSupport_::FeatureSupport>)
        ensures
            r == (if self._has@[10] {
                Some(&self.feature_support)
            } else {
                None
            }),
    {
        if self._has.feature_support() {
            Some(&self.feature_support)
        } else {
            None
        }
    }

    ///Return a mutable reference to `feature_support` as an `Option`
    #[inline]
    pub fn mut_feature_support(&mut self) -> (r: Option<&mut pb::FieldOptions_::FeatureSupport_::FeatureSupport>)
        ensures
            old(self)._has@[10] ==> r is Some && *r->0 == old(self).feature_support && final(self).feature_support
                == *final(r->0) && *final(self) == (FieldOptions { feature_support: final(self).feature_support, ..*old(self) }),
            !old(self)._has@[10] ==> r is None && *final(self) == *old(self),
    {
        if self._has.feature_support() {
            Some(&mut self.feature_support)
        } else {
            None
        }
    }

    ///Set the value and presence of `feature_support`
    #[inline]
    pub fn set_feature_support(&mut self, value: pb::FieldOptions_::FeatureSupport_::FeatureSupport) -> (r: &mut Self)
        ensures
            r._has@ == old(self)._has@.update(10, true),
            *r == (FieldOptions { feature_support: value, _has: r._has, ..*old(self) }),
            *final(self) == *final(r),
    {
        self._has.set_feature_support();
        self.feature_support = value;
        self
    }

    ///Clear the presence of `feature_support`
    #[inline]
    pub fn clear_feature_support(&mut self) -> (r: &mut Self)
        ensures
            r._has@ == old(self)._has@.update(10, false),
            *r == (FieldOptions { _has: r._has, ..*old(self) }),
            *final(self) == *final(r),
    {
        self._has.clear_feature_support();
        self
    }

    ///Take the value of `feature_support` and clear its presence
    #[inline]
    pub fn take_feature_support(&mut self) -> (r: Option<pb::FieldOptions_::FeatureSupport_::FeatureSupport>)
        ensures
            r == (if old(self)._has@[10] {
                Some(old(self).feature_support)
            } else {
                None
            }),
            final(self)._has@ == old(self)._has@.update(10, false),
            old(self)._has@[10] ==> final(self).feature_support@ == pb::FieldOptions_::FeatureSupport_::FeatureSupportModel::empty(),
            !old(self)._has@[10] ==> final(self).feature_support == old(self).feature_support,
            *final(self) == (FieldOptions { feature_support: final(self).feature_support, _has: final(self)._has, ..*old(self) }),
    {
        let val = if self._has.feature_support() {
            let mut v: pb::FieldOptions_::FeatureSupport_::FeatureSupport = pb::FieldOptions_::FeatureSupport_::FeatureSupport::default();
            std::mem::swap(&mut self.feature_support, &mut v);
            Some(v)
        } else {
            None
        };
        self._has.clear_feature_support();
        val
    }

    ///Builder method that sets the value of `feature_support`. Useful for initializing the message.
    #[inline]
    pub fn init_feature_support(self, value: pb::FieldOptions_::FeatureSupport_::FeatureSupport) -> (r: Self)
        ensures
            r._has@ == self._has@.update(10, true),
            r == (FieldOptions { feature_support: value, _has: r._has, ..self }),
    {
        let mut s = self;
        s.set_feature_support(value);
        s
    }

    /// Merges the value of the field numbered `num`, with wire type `wt`, that starts at
    /// `pos` in `buf` into the message, and gives the position just past the value.
    pub fn merge_field(&mut self, num: u32, wt: u32, buf: &[u8], pos: usize) -> (r: Result<usize, DecodeError>)
        requires
            pos <= buf.len(),
        ensures
            match old(self)@.merge_field(num, wt, buf@.subrange(pos as int, buf.len() as int)) {
                Ok((m, k)) => r matches Ok(next) && next == pos + k && final(self)@ == m,
                Err(e) => r == Err::<usize, DecodeError>(e),
            },
            r matches Ok(next) ==> next <= buf.len(),
            r is Err ==> final(self)@ == old(self)@.merge_field_partial(num, wt, buf@.subrange(pos as int, buf.len() as int)),
    {
        proof {
            reveal(FieldOptionsModel::merge_field);
        }
        match num {
            1 => self.merge_ctype_field(wt, buf, pos),
            2 => self.merge_packed_field(wt, buf, pos),
            6 => self.merge_jstype_field(wt, buf, pos),
            5 => self.merge_lazy_field(wt, buf, pos),
            15 => self.merge_unverified_lazy_field(wt, buf, pos),
            3 => self.merge_deprecated_field(wt, buf, pos),
            10 => self.merge_weak_field(wt, buf, pos),
            16 => self.merge_debug_redact_field(wt, buf, pos),
            17 => self.merge_retention_field(wt, buf, pos),
            19 => self.merge_targets_field(wt, buf, pos),
            20 => self.merge_edition_defaults_field(wt, buf, pos),
            21 => self.merge_features_field(wt, buf, pos),
            22 => self.merge_feature_support_field(wt, buf, pos),
            999 => self.merge_uninterpreted_option_field(wt, buf, pos),
            _ => skip_value(buf, pos, buf.len(), wt),
        }
    }

    /// Merges the value of a field numbered 1, starting at `pos` in `buf`, into `ctype`.
    fn merge_ctype_field(&mut self, wt: u32, buf: &[u8], pos: usize) -> (r: Result<usize, DecodeError>)
        requires
            pos <= buf.len(),
        ensures
            match old(self)@.merge_field(1, wt, buf@.subrange(pos as int, buf.len() as int)) {
                Ok((m, k)) => r matches Ok(next) && next == pos + k && final(self)@ == m,
                Err(e) => r == Err::<usize, DecodeError>(e),
            },
            r matches Ok(next) ==> next <= buf.len(),
            r is Err ==> final(self)@ == old(self)@.merge_field_partial(1, wt, buf@.subrange(pos as int, buf.len() as int)),
    {
        proof {
            reveal(FieldOptionsModel::merge_field);
        }
        let ghost m0 = self@;
        let end = buf.len();
        match read_varint(buf, pos, end) {
            Ok((v, next)) => {
                self.ctype = pb::FieldOptions_::CType(to_i32(v));
                self._has.set_ctype();
                proof {
                    assert(self@ =~= (FieldOptionsModel { ctype: pb::FieldOptions_::CType(varint_as_i32(v)), _has: m0._has.update(0, true), ..m0 }));
                }
                Ok(next)
            },
            Err(e) => Err(e),
        }
    }

    /// Merges the value of a field numbered 2, starting at `pos` in `buf`, into `packed`.
    fn merge_packed_field(&mut self, wt: u32, buf: &[u8], pos: usize) -> (r: Result<usize, DecodeError>)
        requires
            pos <= buf.len(),
        ensures
            match old(self)@.merge_field(2, wt, buf@.subrange(pos as int, buf.len() as int)) {
                Ok((m, k)) => r matches Ok(next) && next == pos + k && final(self)@ == m,
                Err(e) => r == Err::<usize, DecodeError>(e),
            },
            r matches Ok(next) ==> next <= buf.len(),
            r is Err ==> final(self)@ == old(self)@.merge_field_partial(2, wt, buf@.subrange(pos as int, buf.len() as int)),
    {
        proof {
            reveal(FieldOptionsModel::merge_field);
        }
        let ghost m0 = self@;
        let end = buf.len();
        match read_varint(buf, pos, end) {
            Ok((v, next)) => {
                self.packed = v != 0;
                self._has.set_packed();
                proof {
                    assert(self@ =~= (FieldOptionsModel { packed: v != 0, _has: m0._has.update(1, true), ..m0 }));
                }
                Ok(next)
            },
            Err(e) => Err(e),
        }
    }

    /// Merges the value of a field numbered 6, starting at `pos` in `buf`, into `jstype`.
    fn merge_jstype_field(&mut self, wt: u32, buf: &[u8], pos: usize) -> (r: Result<usize, DecodeError>)
        requires
            pos <= buf.len(),
        ensures
            match old(self)@.merge_field(6, wt, buf@.subrange(pos as int, buf.len() as int)) {
                Ok((m, k)) => r matches Ok(next) && next == pos + k && final(self)@ == m,
                Err(e) => r == Err::<usize, DecodeError>(e),
            },
            r matches Ok(next) ==> next <= buf.len(),
            r is Err ==> final(self)@ == old(self)@.merge_field_partial(6, wt, buf@.subrange(pos as int, buf.len() as int)),
    {
        proof {
            reveal(FieldOptionsModel::merge_field);
        }
        let ghost m0 = self@;
        let end = buf.len();
        match read_varint(buf, pos, end) {
            Ok((v, next)) => {
                self.jstype = pb::FieldOptions_::JSType(to_i32(v));
                self._has.set_jstype();
                proof {
                    assert(self@ =~= (FieldOptionsModel { jstype: pb::FieldOptions_::JSType(varint_as_i32(v)), _has: m0._has.update(2, true), ..m0 }));
                }
                Ok(next)
            },
            Err(e) => Err(e),
        }
    }

    /// Merges the value of a field numbered 5, starting at `pos` in `buf`, into `lazy`.
    fn merge_lazy_field(&mut self, wt: u32, buf: &[u8], pos: usize) -> (r: Result<usize, DecodeError>)
        requires
            pos <= buf.len(),
        ensures
            match old(self)@.merge_field(5, wt, buf@.subrange(pos as int, buf.len() as int)) {
                Ok((m, k)) => r matches Ok(next) && next == pos + k && final(self)@ == m,
                Err(e) => r == Err::<usize, DecodeError>(e),
            },
            r matches Ok(next) ==> next <= buf.len(),
            r is Err ==> final(self)@ == old(self)@.merge_field_partial(5, wt, buf@.subrange(pos as int, buf.len() as int)),
    {
        proof {
            reveal(FieldOptionsModel::merge_field);
        }
        let ghost m0 = self@;
        let end = buf.len();
        match read_varint(buf, pos, end) {
            Ok((v, next)) => {
                self.lazy = v != 0;
                self._has.set_lazy();
                proof {
                    assert(self@ =~= (FieldOptionsModel { lazy: v != 0, _has: m0._has.update(3, true), ..m0 }));
                }
                Ok(next)
            },
            Err(e) => Err(e),
        }
    }

    /// Merges the value of a field numbered 15, starting at `pos` in `buf`, into `unverified_lazy`.
    fn merge_unverified_lazy_field(&mut self, wt: u32, buf: &[u8], pos: usize) -> (r: Result<usize, DecodeError>)
        requires
            pos <= buf.len(),
        ensures
            match old(self)@.merge_field(15, wt, buf@.subrange(pos as int, buf.len() as int)) {
                Ok((m, k)) => r matches Ok(next) && next == pos + k && final(self)@ == m,
                Err(e) => r == Err::<usize, DecodeError>(e),
            },
            r matches Ok(next) ==> next <= buf.len(),
            r is Err ==> final(self)@ == old(self)@.merge_field_partial(15, wt, buf@.subrange(pos as int, buf.len() as int)),
    {
        proof {
            reveal(FieldOptionsModel::merge_field);
        }
        let ghost m0 = self@;
        let end = buf.len();
        match read_varint(buf, pos, end) {
            Ok((v, next)) => {
                self.unverified_lazy = v != 0;
                self._has.set_unverified_lazy();
                proof {
                    assert(self@ =~= (FieldOptionsModel { unverified_lazy: v != 0, _has: m0._has.update(4, true), ..m0 }));
                }
                Ok(next)
            },
            Err(e) => Err(e),
        }
    }

    /// Merges the value of a field numbered 3, starting at `pos` in `buf`, into `deprecated`.
    fn merge_deprecated_field(&mut self, wt: u32, buf: &[u8], pos: usize) -> (r: Result<usize, DecodeError>)
        requires
            pos <= buf.len(),
        ensures
            match old(self)@.merge_field(3, wt, buf@.subrange(pos as int, buf.len() as int)) {
                Ok((m, k)) => r matches Ok(next) && next == pos + k && final(self)@ == m,
                Err(e) => r == Err::<usize, DecodeError>(e),
            },
            r matches Ok(next) ==> next <= buf.len(),
            r is Err ==> final(self)@ == old(self)@.merge_field_partial(3, wt, buf@.subrange(pos as int, buf.len() as int)),
    {
        proof {
            reveal(FieldOptionsModel::merge_field);
        }
        let ghost m0 = self@;
        let end = buf.len();
        match read_varint(buf, pos, end) {
            Ok((v, next)) => {
                self.deprecated = v != 0;
                self._has.set_deprecated();
                proof {
                    assert(self@ =~= (FieldOptionsModel { deprecated: v != 0, _has: m0._has.update(5, true), ..m0 }));
                }
                Ok(next)
            },
            Err(e) => Err(e),
        }
    }

    /// Merges the value of a field numbered 10, starting at `pos` in `buf`, into `weak`.
    fn merge_weak_field(&mut self, wt: u32, buf: &[u8], pos: usize) -> (r: Result<usize, DecodeError>)
        requires
            pos <= buf.len(),
        ensures
            match old(self)@.merge_field(10, wt, buf@.subrange(pos as int, buf.len() as int)) {
                Ok((m, k)) => r matches Ok(next) && next == pos + k && final(self)@ == m,
                Err(e) => r == Err::<usize, DecodeError>(e),
            },
            r matches Ok(next) ==> next <= buf.len(),
            r is Err ==> final(self)@ == old(self)@.merge_field_partial(10, wt, buf@.subrange(pos as int, buf.len() as int)),
    {
        proof {
            reveal(FieldOptionsModel::merge_field);
        }
        let ghost m0 = self@;
        let end = buf.len();
        match read_varint(buf, pos, end) {
            Ok((v, next)) => {
                self.weak = v != 0;
                self._has.set_weak();
                proof {
                    assert(self@ =~= (FieldOptionsModel { weak: v != 0, _has: m0._has.update(6, true), ..m0 }));
                }
                Ok(next)
            },
            Err(e) => Err(e),
        }
    }

    /// Merges the value of a field numbered 16, starting at `pos` in `buf`, into `debug_redact`.
    fn merge_debug_redact_field(&mut self, wt: u32, buf: &[u8], pos: usize) -> (r: Result<usize, DecodeError>)
        requires
            pos <= buf.len(),
        ensures
            match old(self)@.merge_field(16, wt, buf@.subrange(pos as int, buf.len() as int)) {
                Ok((m, k)) => r matches Ok(next) && next == pos + k && final(self)@ == m,
                Err(e) => r == Err::<usize, DecodeError>(e),
            },
            r matches Ok(next) ==> next <= buf.len(),
            r is Err ==> final(self)@ == old(self)@.merge_field_partial(16, wt, buf@.subrange(pos as int, buf.len() as int)),
    {
        proof {
            reveal(FieldOptionsModel::merge_field);
        }
        let ghost m0 = self@;
        let end = buf.len();
        match read_varint(buf, pos, end) {
            Ok((v, next)) => {
                self.debug_redact = v != 0;
                self._has.set_debug_redact();
                proof {
                    assert(self@ =~= (FieldOptionsModel { debug_redact: v != 0, _has: m0._has.update(7, true), ..m0 }));
                }
                Ok(next)
            },
            Err(e) => Err(e),
        }
    }

    /// Merges the value of a field numbered 17, starting at `pos` in `buf`, into `retention`.
    fn merge_retention_field(&mut self, wt: u32, buf: &[u8], pos: usize) -> (r: Result<usize, DecodeError>)
        requires
            pos <= buf.len(),
        ensures
            match old(self)@.merge_field(17, wt, buf@.subrange(pos as int, buf.len() as int)) {
                Ok((m, k)) => r matches Ok(next) && next == pos + k && final(self)@ == m,
                Err(e) => r == Err::<usize, DecodeError>(e),
            },
            r matches Ok(next) ==> next <= buf.len(),
            r is Err ==> final(self)@ == old(self)@.merge_field_partial(17, wt, buf@.subrange(pos as int, buf.len() as int)),
    {
        proof {
            reveal(FieldOptionsModel::merge_field);
        }
        let ghost m0 = self@;
        let end = buf.len();
        match read_varint(buf, pos, end) {
            Ok((v, next)) => {
                self.retention = pb::FieldOptions_::OptionRetention(to_i32(v));
                self._has.set_retention();
                proof {
                    assert(self@ =~= (FieldOptionsModel { retention: pb::FieldOptions_::OptionRetention(varint_as_i32(v)), _has: m0._has.update(8, true), ..m0 }));
                }
                Ok(next)
            },
            Err(e) => Err(e),
        }
    }

    /// Merges the value of a field numbered 19, starting at `pos` in `buf`, into `targets`.
    fn merge_targets_field(&mut self, wt: u32, buf: &[u8], pos: usize) -> (r: Result<usize, DecodeError>)
        requires
            pos <= buf.len(),
        ensures
            match old(self)@.merge_field(19, wt, buf@.subrange(pos as int, buf.len() as int)) {
                Ok((m, k)) => r matches Ok(next) && next == pos + k && final(self)@ == m,
                Err(e) => r == Err::<usize, DecodeError>(e),
            },
            r matches Ok(next) ==> next <= buf.len(),
            r is Err ==> final(self)@ == old(self)@.merge_field_partial(19, wt, buf@.subrange(pos as int, buf.len() as int)),
    {
        proof {
            reveal(FieldOptionsModel::merge_field);
        }
        let ghost m0 = self@;
        let end = buf.len();
        if wt == WIRE_TYPE_LEN {
            match read_len(buf, pos, end) {
                Ok((a, b)) => match read_packed_i32(buf, a, b) {
                    Ok(vs) => {
                        extend_OptionTargetType(&mut self.targets, &vs);
                        proof {
                            assert(self@ =~= (FieldOptionsModel { targets: m0.targets + vs@.map_values(|x: i32| pb::FieldOptions_::OptionTargetType(x)), ..m0 }));
                        }
                        Ok(b)
                    },
                    Err(e) => Err(e),
                },
                Err(e) => Err(e),
            }
        } else {
            match read_varint(buf, pos, end) {
                Ok((v, next)) => {
                    self.targets.push(pb::FieldOptions_::OptionTargetType(to_i32(v)));
                    proof {
                        assert(self@ =~= (FieldOptionsModel { targets: m0.targets.push(pb::FieldOptions_::OptionTargetType(varint_as_i32(v))), ..m0 }));
                    }
                    Ok(next)
                },
                Err(e) => Err(e),
            }
        }
    }

    /// Merges the value of a field numbered 20, starting at `pos` in `buf`, into `edition_defaults`.
    fn merge_edition_defaults_field(&mut self, wt: u32, buf: &[u8], pos: usize) -> (r: Result<usize, DecodeError>)
        requires
            pos <= buf.len(),
        ensures
            match old(self)@.merge_field(20, wt, buf@.subrange(pos as int, buf.len() as int)) {
                Ok((m, k)) => r matches Ok(next) && next == pos + k && final(self)@ == m,
                Err(e) => r == Err::<usize, DecodeError>(e),
            },
            r matches Ok(next) ==> next <= buf.len(),
            r is Err ==> final(self)@ == old(self)@.merge_field_partial(20, wt, buf@.subrange(pos as int, buf.len() as int)),
    {
        proof {
            reveal(FieldOptionsModel::merge_field);
        }
        let ghost m0 = self@;
        let end = buf.len();
        match read_varint(buf, pos, end) {
            Ok((l, q)) => {
                proof {
                    assert(buf@.subrange(pos as int, end as int).subrange((q - pos) as int, (end - pos) as int) =~= buf@.subrange(q as int, end as int));
                }
                let mut v = pb::FieldOptions_::EditionDefault_::EditionDefault::default();
                match v.decode(buf, q, l) {
                    Ok(next) => {
                        let ghost vm = v@;
                        self.edition_defaults.push(v);
                        proof {
                            assert(self@ =~= (FieldOptionsModel { edition_defaults: m0.edition_defaults.push(vm), ..m0 }));
                        }
                        Ok(next)
                    },
                    Err(e) => Err(e),
                }
            },
            Err(e) => Err(e),
        }
    }

    /// Merges the value of a field numbered 21, starting at `pos` in `buf`, into `features`.
    fn merge_features_field(&mut self, wt: u32, buf: &[u8], pos: usize) -> (r: Result<usize, DecodeError>)
        requires
            pos <= buf.len(),
        ensures
            match old(self)@.merge_field(21, wt, buf@.subrange(pos as int, buf.len() as int)) {
                Ok((m, k)) => r matches Ok(next) && next == pos + k && final(self)@ == m,
                Err(e) => r == Err::<usize, DecodeError>(e),
            },
            r matches Ok(next) ==> next <= buf.len(),
            r is Err ==> final(self)@ == old(self)@.merge_field_partial(21, wt, buf@.subrange(pos as int, buf.len() as int)),
    {
        proof {
            reveal(FieldOptionsModel::merge_field);
        }
        let ghost m0 = self@;
        let end = buf.len();
        match read_varint(buf, pos, end) {
            Ok((l, q)) => {
                proof {
                    assert(buf@.subrange(pos as int, end as int).subrange((q - pos) as int, (end - pos) as int) =~= buf@.subrange(q as int, end as int));
                }
                match self.features.decode(buf, q, l) {
                    Ok(next) => {
                        self._has.set_features();
                        proof {
                            assert(self@ =~= (FieldOptionsModel { features: self.features@, _has: m0._has.update(9, true), ..m0 }));
                        }
                        Ok(next)
                    },
                    Err(e) => {
                        proof {
                            assert(self@ =~= (FieldOptionsModel { features: self.features@, ..m0 }));
                        }
                        Err(e)
                    },
                }
            },
            Err(e) => Err(e),
        }
    }

    /// Merges the value of a field numbered 22, starting at `pos` in `buf`, into `feature_support`.
    fn merge_feature_support_field(&mut self, wt: u32, buf: &[u8], pos: usize) -> (r: Result<usize, DecodeError>)
        requires
            pos <= buf.len(),
        ensures
            match old(self)@.merge_field(22, wt, buf@.subrange(pos as int, buf.len() as int)) {
                Ok((m, k)) => r matches Ok(next) && next == pos + k && final(self)@ == m,
                Err(e) => r == Err::<usize, DecodeError>(e),
            },
            r matches Ok(next) ==> next <= buf.len(),
            r is Err ==> final(self)@ == old(self)@.merge_field_partial(22, wt, buf@.subrange(pos as int, buf.len() as int)),
    {
        proof {
            reveal(FieldOptionsModel::merge_field);
        }
        let ghost m0 = self@;
        let end = buf.len();
        match read_varint(buf, pos, end) {
            Ok((l, q)) => {
                proof {
                    assert(buf@.subrange(pos as int, end as int).subrange((q - pos) as int, (end - pos) as int) =~= buf@.subrange(q as int, end as int));
                }
                match self.feature_support.decode(buf, q, l) {
                    Ok(next) => {
                        self._has.set_feature_support();
                        proof {
                            assert(self@ =~= (FieldOptionsModel { feature_support: self.feature_support@, _has: m0._has.update(10, true), ..m0 }));
                        }
                        Ok(next)
                    },
                    Err(e) => {
                        proof {
                            assert(self@ =~= (FieldOptionsModel { feature_support: self.feature_support@, ..m0 }));
                        }
                        Err(e)
                    },
                }
            },
            Err(e) => Err(e),
        }
    }

    /// Merges the value of a field numbered 999, starting at `pos` in `buf`, into `uninterpreted_option`.
    fn merge_uninterpreted_option_field(&mut self, wt: u32, buf: &[u8], pos: usize) -> (r: Result<usize, DecodeError>)
        requires
            pos <= buf.len(),
        ensures
            match old(self)@.merge_field(999, wt, buf@.subrange(pos as int, buf.len() as int)) {
                Ok((m, k)) => r matches Ok(next) && next == pos + k && final(self)@ == m,
                Err(e) => r == Err::<usize, DecodeError>(e),
            },
            r matches Ok(next) ==> next <= buf.len(),
            r is Err ==> final(self)@ == old(self)@.merge_field_partial(999, wt, buf@.subrange(pos as int, buf.len() as int)),
    {
        proof {
            reveal(FieldOptionsModel::merge_field);
        }
        let ghost m0 = self@;
        let end = buf.len();
        match read_varint(buf, pos, end) {
            Ok((l, q)) => {
                proof {
                    assert(buf@.subrange(pos as int, end as int).subrange((q - pos) as int, (end - pos) as int) =~= buf@.subrange(q as int, end as int));
                }
                let mut v = pb::UninterpretedOption_::UninterpretedOption::default();
                match v.decode(buf, q, l) {
                    Ok(next) => {
                        let ghost vm = v@;
                        self.uninterpreted_option.push(v);
                        proof {
                            assert(self@ =~= (FieldOptionsModel { uninterpreted_option: m0.uninterpreted_option.push(vm), ..m0 }));
                        }
                        Ok(next)
                    },
                    Err(e) => Err(e),
                }
            },
            Err(e) => Err(e),
        }
    }

    /// Reads fields from `buf`, from `start` on, into the message while fewer than `len`
    /// bytes have been read, and gives the position just past the last field read.
    #[verifier::rlimit(40)]
    pub fn decode(&mut self, buf: &[u8], start: usize, len: u64) -> (r: Result<usize, DecodeError>)
        requires
            start <= buf.len(),
        ensures
            match old(self)@.decode_stream(buf@.subrange(start as int, buf.len() as int), len as int) {
                Ok((m, c)) => r matches Ok(next) && next == start + c && final(self)@ == m,
                Err(e) => r == Err::<usize, DecodeError>(e),
            },
            r matches Ok(next) ==> next <= buf.len(),
            r is Err ==> final(self)@ == old(self)@.until_error_stream(
                buf@.subrange(start as int, buf.len() as int),
                len as int,
            ),
    {
        let mut pos = start;
        while ((pos - start) as u64) < len
            invariant
                start <= pos <= buf.len(),
                old(self)@.decode_stream(buf@.subrange(start as int, buf.len() as int), len as int)
                    == shift_consumed(
                    self@.decode_stream(buf@.subrange(pos as int, buf.len() as int), len - (pos - start)),
                    (pos - start) as nat,
                ),
                old(self)@.until_error_stream(buf@.subrange(start as int, buf.len() as int), len as int)
                    == self@.until_error_stream(buf@.subrange(pos as int, buf.len() as int), len - (pos - start)),
            decreases buf.len() - pos,
        {
            let ghost s = buf@.subrange(pos as int, buf.len() as int);
            let (num, wt, p) = match read_tag(buf, pos, buf.len()) {
                Ok(x) => x,
                Err(e) => return Err(e),
            };
            if num == 0 {
                return Err(DecodeError::ZeroField);
            }
            proof {
                lemma_tag_bounds(s);
                assert(s.subrange((p - pos) as int, s.len() as int) =~= buf@.subrange(p as int, buf.len() as int));
            }
            let next = match self.merge_field(num, wt, buf, p) {
                Ok(x) => x,
                Err(e) => return Err(e),
            };
            proof {
                let rest = buf@.subrange(p as int, buf.len() as int);
                assert(rest.subrange((next - p) as int, rest.len() as int) =~= buf@.subrange(
                    next as int,
                    buf.len() as int,
                ));
            }
            pos = next;
        }
        Ok(pos)
    }

    /// Merges the fields encoded in `bytes` into the message.
    pub fn decode_from_bytes(&mut self, bytes: &[u8]) -> (r: Result<(), DecodeError>)
        ensures
            match old(self)@.merge_from(bytes@) {
                Ok(m) => r is Ok && final(self)@ == m,
                Err(e) => r == Err::<(), DecodeError>(e),
            },
            r is Err ==> final(self)@ == old(self)@.merge_until_error(bytes@),
    {
        assert(bytes@.subrange(0, bytes@.len() as int) =~= bytes@);
        match self.decode(bytes, 0, bytes.len() as u64) {
            Ok(_) => Ok(()),
            Err(e) => Err(e),
        }
    }
}

/// Appends the values of `src`, each as a `OptionTargetType`, to `dst`.
fn extend_OptionTargetType(dst: &mut Vec<pb::FieldOptions_::OptionTargetType>, src: &Vec<i32>)
    ensures
        final(dst)@ == old(dst)@ + src@.map_values(|x: i32| pb::FieldOptions_::OptionTargetType(x)),
{
    let ghost d0 = dst@;
    let mut i: usize = 0;
    while i < src.len()
        invariant
            i <= src.len(),
            dst@ == d0 + src@.subrange(0, i as int).map_values(|x: i32| pb::FieldOptions_::OptionTargetType(x)),
        decreases src.len() - i,
    {
        dst.push(pb::FieldOptions_::OptionTargetType(src[i]));
        assert(src@.subrange(0, (i + 1) as int).map_values(|x: i32| pb::FieldOptions_::OptionTargetType(x)) =~= src@.subrange(0, i as int).map_values(|x: i32| pb::FieldOptions_::OptionTargetType(x)).push(pb::FieldOptions_::OptionTargetType(src@[i as int])));
        assert(dst@ =~= d0 + src@.subrange(0, (i + 1) as int).map_values(|x: i32| pb::FieldOptions_::OptionTargetType(x)));
        i = i + 1;
    }
    assert(src@.subrange(0, i as int) =~= src@);
}

} // verus!
