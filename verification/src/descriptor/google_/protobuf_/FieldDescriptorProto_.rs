//! `FieldDescriptorProto`, with its nested types and its presence bits.
use vstd::prelude::*;
use vstd::utf8::{decode_utf8, valid_utf8};
use crate::bits::{flags_of, lemma_flags_clear, lemma_flags_get, lemma_flags_set, lemma_flags_zero};
use crate::descriptor::google_::protobuf_ as pb;
use crate::wire::{
    copy_bytes, lemma_len_bounds, lemma_varint_bounds, lemma_tag_bounds, lemma_values_prefix, parse_fixed64, parse_len, parse_packed_i32,
    parse_string, parse_tag, parse_varint, read_fixed64, read_len, read_packed_i32, read_string,
    read_tag, read_varint, shift_consumed, skip_len, skip_value, to_i32, to_i64, varint_as_i32,
    varint_as_i64, DecodeError, WIRE_TYPE_LEN,
};


verus! {

#[derive(Debug, Clone, Copy, PartialEq, Eq, Structural, Hash)]
pub struct Type(pub i32);

impl Type {
    /// The value `1`.
    pub fn Double() -> (r: Self)
        ensures
            r == Type(1),
    {
        Self(1)
    }

    /// The value `2`.
    pub fn Float() -> (r: Self)
        ensures
            r == Type(2),
    {
        Self(2)
    }

    /// The value `3`.
    pub fn Int64() -> (r: Self)
        ensures
            r == Type(3),
    {
        Self(3)
    }

    /// The value `4`.
    pub fn Uint64() -> (r: Self)
        ensures
            r == Type(4),
    {
        Self(4)
    }

    /// The value `5`.
    pub fn Int32() -> (r: Self)
        ensures
            r == Type(5),
    {
        Self(5)
    }

    /// The value `6`.
    pub fn Fixed64() -> (r: Self)
        ensures
            r == Type(6),
    {
        Self(6)
    }

    /// The value `7`.
    pub fn Fixed32() -> (r: Self)
        ensures
            r == Type(7),
    {
        Self(7)
    }

    /// The value `8`.
    pub fn Bool() -> (r: Self)
        ensures
            r == Type(8),
    {
        Self(8)
    }

    /// The value `9`.
    pub fn String() -> (r: Self)
        ensures
            r == Type(9),
    {
        Self(9)
    }

    /// The value `10`.
    pub fn Group() -> (r: Self)
        ensures
            r == Type(10),
    {
        Self(10)
    }

    /// The value `11`.
    pub fn Message() -> (r: Self)
        ensures
            r == Type(11),
    {
        Self(11)
    }

    /// The value `12`.
    pub fn Bytes() -> (r: Self)
        ensures
            r == Type(12),
    {
        Self(12)
    }

    /// The value `13`.
    pub fn Uint32() -> (r: Self)
        ensures
            r == Type(13),
    {
        Self(13)
    }

    /// The value `14`.
    pub fn Enum() -> (r: Self)
        ensures
            r == Type(14),
    {
        Self(14)
    }

    /// The value `15`.
    pub fn Sfixed32() -> (r: Self)
        ensures
            r == Type(15),
    {
        Self(15)
    }

    /// The value `16`.
    pub fn Sfixed64() -> (r: Self)
        ensures
            r == Type(16),
    {
        Self(16)
    }

    /// The value `17`.
    pub fn Sint32() -> (r: Self)
        ensures
            r == Type(17),
    {
        Self(17)
    }

    /// The value `18`.
    pub fn Sint64() -> (r: Self)
        ensures
            r == Type(18),
    {
        Self(18)
    }
}

impl Default for Type {
    fn default() -> (r: Self)
        ensures
            r == Type(0),
    {
        Self(0)
    }
}

impl From<i32> for Type {
    fn from(val: i32) -> (r: Self) {
        Self(val)
    }
}

impl vstd::std_specs::convert::FromSpecImpl<i32> for Type {
    open spec fn obeys_from_spec() -> bool {
        true
    }

    open spec fn from_spec(v: i32) -> Self {
        Type(v)
    }
}

#[derive(Debug, Clone, Copy, PartialEq, Eq, Structural, Hash)]
pub struct Label(pub i32);

impl Label {
    /// The value `1`.
    pub fn Optional() -> (r: Self)
        ensures
            r == Label(1),
    {
        Self(1)
    }

    /// The value `3`.
    pub fn Repeated() -> (r: Self)
        ensures
            r == Label(3),
    {
        Self(3)
    }

    /// The value `2`.
    pub fn Required() -> (r: Self)
        ensures
            r == Label(2),
    {
        Self(2)
    }
}

impl Default for Label {
    fn default() -> (r: Self)
        ensures
            r == Label(0),
    {
        Self(0)
    }
}

impl From<i32> for Label {
    fn from(val: i32) -> (r: Self) {
        Self(val)
    }
}

impl vstd::std_specs::convert::FromSpecImpl<i32> for Label {
    open spec fn obeys_from_spec() -> bool {
        true
    }

    open spec fn from_spec(v: i32) -> Self {
        Label(v)
    }
}

/// Presence bits of the optional fields of `FieldDescriptorProto`: bit `i % 8` of byte `i / 8` is flag `i`.
#[derive(Debug, PartialEq)]
pub struct _Hazzer(pub [u8; 2]);

impl View for _Hazzer {
    type V = Seq<bool>;

    open spec fn view(&self) -> Seq<bool> {
        flags_of(self.0@)
    }
}

impl Default for _Hazzer {
    fn default() -> (r: Self)
        ensures
            r@ == Seq::new(16, |i: int| false),
    {
        let r = _Hazzer([0u8, 0u8]);
        proof {
            lemma_flags_zero(r.0@);
            assert(r@ =~= Seq::new(16, |i: int| false));
        }
        r
    }
}

impl Clone for _Hazzer {
    fn clone(&self) -> (r: Self)
        ensures
            r == *self,
    {
        _Hazzer(self.0)
    }
}

impl _Hazzer {
    ///Query presence of `name`
    #[inline]
    pub fn name(&self) -> (r: bool)
        ensures
            r == self@[0],
    {
        proof {
            lemma_flags_get(self.0@, 0, 0);
        }
        (self.0[0] & (1u8 << 0u8)) != 0
    }

    ///Set presence of `name`
    #[inline]
    pub fn set_name(&mut self) -> (r: &mut Self)
        ensures
            r@ == old(self)@.update(0, true),
            *final(self) == *final(r),
    {
        let ghost bytes = self.0@;
        self.0[0] = self.0[0] | (1u8 << 0u8);
        proof {
            lemma_flags_set(bytes, self.0@, 0, 0);
        }
        self
    }

    ///Clear presence of `name`
    #[inline]
    pub fn clear_name(&mut self) -> (r: &mut Self)
        ensures
            r@ == old(self)@.update(0, false),
            *final(self) == *final(r),
    {
        let ghost bytes = self.0@;
        self.0[0] = self.0[0] & !(1u8 << 0u8);
        proof {
            lemma_flags_clear(bytes, self.0@, 0, 0);
        }
        self
    }

    ///Builder method that sets the presence of `name`. Useful for initializing the Hazzer.
    #[inline]
    pub fn init_name(self) -> (r: Self)
        ensures
            r@ == self@.update(0, true),
    {
        let mut s = self;
        s.set_name();
        s
    }

    ///Query presence of `number`
    #[inline]
    pub fn number(&self) -> (r: bool)
        ensures
            r == self@[1],
    {
        proof {
            lemma_flags_get(self.0@, 0, 1);
        }
        (self.0[0] & (1u8 << 1u8)) != 0
    }

    ///Set presence of `number`
    #[inline]
    pub fn set_number(&mut self) -> (r: &mut Self)
        ensures
            r@ == old(self)@.update(1, true),
            *final(self) == *final(r),
    {
        let ghost bytes = self.0@;
        self.0[0] = self.0[0] | (1u8 << 1u8);
        proof {
            lemma_flags_set(bytes, self.0@, 0, 1);
        }
        self
    }

    ///Clear presence of `number`
    #[inline]
    pub fn clear_number(&mut self) -> (r: &mut Self)
        ensures
            r@ == old(self)@.update(1, false),
            *final(self) == *final(r),
    {
        let ghost bytes = self.0@;
        self.0[0] = self.0[0] & !(1u8 << 1u8);
        proof {
            lemma_flags_clear(bytes, self.0@, 0, 1);
        }
        self
    }

    ///Builder method that sets the presence of `number`. Useful for initializing the Hazzer.
    #[inline]
    pub fn init_number(self) -> (r: Self)
        ensures
            r@ == self@.update(1, true),
    {
        let mut s = self;
        s.set_number();
        s
    }

    ///Query presence of `label`
    #[inline]
    pub fn label(&self) -> (r: bool)
        ensures
            r == self@[2],
    {
        proof {
            lemma_flags_get(self.0@, 0, 2);
        }
        (self.0[0] & (1u8 << 2u8)) != 0
    }

    ///Set presence of `label`
    #[inline]
    pub fn set_label(&mut self) -> (r: &mut Self)
        ensures
            r@ == old(self)@.update(2, true),
            *final(self) == *final(r),
    {
        let ghost bytes = self.0@;
        self.0[0] = self.0[0] | (1u8 << 2u8);
        proof {
            lemma_flags_set(bytes, self.0@, 0, 2);
        }
        self
    }

    ///Clear presence of `label`
    #[inline]
    pub fn clear_label(&mut self) -> (r: &mut Self)
        ensures
            r@ == old(self)@.update(2, false),
            *final(self) == *final(r),
    {
        let ghost bytes = self.0@;
        self.0[0] = self.0[0] & !(1u8 << 2u8);
        proof {
            lemma_flags_clear(bytes, self.0@, 0, 2);
        }
        self
    }

    ///Builder method that sets the presence of `label`. Useful for initializing the Hazzer.
    #[inline]
    pub fn init_label(self) -> (r: Self)
        ensures
            r@ == self@.update(2, true),
    {
        let mut s = self;
        s.set_label();
        s
    }

    ///Query presence of `type`
    #[inline]
    pub fn type_(&self) -> (r: bool)
        ensures
            r == self@[3],
    {
        proof {
            lemma_flags_get(self.0@, 0, 3);
        }
        (self.0[0] & (1u8 << 3u8)) != 0
    }

    ///Set presence of `type`
    #[inline]
    pub fn set_type(&mut self) -> (r: &mut Self)
        ensures
            r@ == old(self)@.update(3, true),
            *final(self) == *final(r),
    {
        let ghost bytes = self.0@;
        self.0[0] = self.0[0] | (1u8 << 3u8);
        proof {
            lemma_flags_set(bytes, self.0@, 0, 3);
        }
        self
    }

    ///Clear presence of `type`
    #[inline]
    pub fn clear_type(&mut self) -> (r: &mut Self)
        ensures
            r@ == old(self)@.update(3, false),
            *final(self) == *final(r),
    {
        let ghost bytes = self.0@;
        self.0[0] = self.0[0] & !(1u8 << 3u8);
        proof {
            lemma_flags_clear(bytes, self.0@, 0, 3);
        }
        self
    }

    ///Builder method that sets the presence of `type`. Useful for initializing the Hazzer.
    #[inline]
    pub fn init_type(self) -> (r: Self)
        ensures
            r@ == self@.update(3, true),
    {
        let mut s = self;
        s.set_type();
        s
    }

    ///Query presence of `type_name`
    #[inline]
    pub fn type_name_(&self) -> (r: bool)
        ensures
            r == self@[4],
    {
        proof {
            lemma_flags_get(self.0@, 0, 4);
        }
        (self.0[0] & (1u8 << 4u8)) != 0
    }

    ///Set presence of `type_name`
    #[inline]
    pub fn set_type_name(&mut self) -> (r: &mut Self)
        ensures
            r@ == old(self)@.update(4, true),
            *final(self) == *final(r),
    {
        let ghost bytes = self.0@;
        self.0[0] = self.0[0] | (1u8 << 4u8);
        proof {
            lemma_flags_set(bytes, self.0@, 0, 4);
        }
        self
    }

    ///Clear presence of `type_name`
    #[inline]
    pub fn clear_type_name(&mut self) -> (r: &mut Self)
        ensures
            r@ == old(self)@.update(4, false),
            *final(self) == *final(r),
    {
        let ghost bytes = self.0@;
        self.0[0] = self.0[0] & !(1u8 << 4u8);
        proof {
            lemma_flags_clear(bytes, self.0@, 0, 4);
        }
        self
    }

    ///Builder method that sets the presence of `type_name`. Useful for initializing the Hazzer.
    #[inline]
    pub fn init_type_name(self) -> (r: Self)
        ensures
            r@ == self@.update(4, true),
    {
        let mut s = self;
        s.set_type_name();
        s
    }

    ///Query presence of `extendee`
    #[inline]
    pub fn extendee(&self) -> (r: bool)
        ensures
            r == self@[5],
    {
        proof {
            lemma_flags_get(self.0@, 0, 5);
        }
        (self.0[0] & (1u8 << 5u8)) != 0
    }

    ///Set presence of `extendee`
    #[inline]
    pub fn set_extendee(&mut self) -> (r: &mut Self)
        ensures
            r@ == old(self)@.update(5, true),
            *final(self) == *final(r),
    {
        let ghost bytes = self.0@;
        self.0[0] = self.0[0] | (1u8 << 5u8);
        proof {
            lemma_flags_set(bytes, self.0@, 0, 5);
        }
        self
    }

    ///Clear presence of `extendee`
    #[inline]
    pub fn clear_extendee(&mut self) -> (r: &mut Self)
        ensures
            r@ == old(self)@.update(5, false),
            *final(self) == *final(r),
    {
        let ghost bytes = self.0@;
        self.0[0] = self.0[0] & !(1u8 << 5u8);
        proof {
            lemma_flags_clear(bytes, self.0@, 0, 5);
        }
        self
    }

    ///Builder method that sets the presence of `extendee`. Useful for initializing the Hazzer.
    #[inline]
    pub fn init_extendee(self) -> (r: Self)
        ensures
            r@ == self@.update(5, true),
    {
        let mut s = self;
        s.set_extendee();
        s
    }

    ///Query presence of `default_value`
    #[inline]
    pub fn default_value(&self) -> (r: bool)
        ensures
            r == self@[6],
    {
        proof {
            lemma_flags_get(self.0@, 0, 6);
        }
        (self.0[0] & (1u8 << 6u8)) != 0
    }

    ///Set presence of `default_value`
    #[inline]
    pub fn set_default_value(&mut self) -> (r: &mut Self)
        ensures
            r@ == old(self)@.update(6, true),
            *final(self) == *final(r),
    {
        let ghost bytes = self.0@;
        self.0[0] = self.0[0] | (1u8 << 6u8);
        proof {
            lemma_flags_set(bytes, self.0@, 0, 6);
        }
        self
    }

    ///Clear presence of `default_value`
    #[inline]
    pub fn clear_default_value(&mut self) -> (r: &mut Self)
        ensures
            r@ == old(self)@.update(6, false),
            *final(self) == *final(r),
    {
        let ghost bytes = self.0@;
        self.0[0] = self.0[0] & !(1u8 << 6u8);
        proof {
            lemma_flags_clear(bytes, self.0@, 0, 6);
        }
        self
    }

    ///Builder method that sets the presence of `default_value`. Useful for initializing the Hazzer.
    #[inline]
    pub fn init_default_value(self) -> (r: Self)
        ensures
            r@ == self@.update(6, true),
    {
        let mut s = self;
        s.set_default_value();
        s
    }

    ///Query presence of `oneof_index`
    #[inline]
    pub fn oneof_index(&self) -> (r: bool)
        ensures
            r == self@[7],
    {
        proof {
            lemma_flags_get(self.0@, 0, 7);
        }
        (self.0[0] & (1u8 << 7u8)) != 0
    }

    ///Set presence of `oneof_index`
    #[inline]
    pub fn set_oneof_index(&mut self) -> (r: &mut Self)
        ensures
            r@ == old(self)@.update(7, true),
            *final(self) == *final(r),
    {
        let ghost bytes = self.0@;
        self.0[0] = self.0[0] | (1u8 << 7u8);
        proof {
            lemma_flags_set(bytes, self.0@, 0, 7);
        }
        self
    }

    ///Clear presence of `oneof_index`
    #[inline]
    pub fn clear_oneof_index(&mut self) -> (r: &mut Self)
        ensures
            r@ == old(self)@.update(7, false),
            *final(self) == *final(r),
    {
        let ghost bytes = self.0@;
        self.0[0] = self.0[0] & !(1u8 << 7u8);
        proof {
            lemma_flags_clear(bytes, self.0@, 0, 7);
        }
        self
    }

    ///Builder method that sets the presence of `oneof_index`. Useful for initializing the Hazzer.
    #[inline]
    pub fn init_oneof_index(self) -> (r: Self)
        ensures
            r@ == self@.update(7, true),
    {
        let mut s = self;
        s.set_oneof_index();
        s
    }

    ///Query presence of `json_name`
    #[inline]
    pub fn json_name(&self) -> (r: bool)
        ensures
            r == self@[8],
    {
        proof {
            lemma_flags_get(self.0@, 1, 0);
        }
        (self.0[1] & (1u8 << 0u8)) != 0
    }

    ///Set presence of `json_name`
    #[inline]
    pub fn set_json_name(&mut self) -> (r: &mut Self)
        ensures
            r@ == old(self)@.update(8, true),
            *final(self) == *final(r),
    {
        let ghost bytes = self.0@;
        self.0[1] = self.0[1] | (1u8 << 0u8);
        proof {
            lemma_flags_set(bytes, self.0@, 1, 0);
        }
        self
    }

    ///Clear presence of `json_name`
    #[inline]
    pub fn clear_json_name(&mut self) -> (r: &mut Self)
        ensures
            r@ == old(self)@.update(8, false),
            *final(self) == *final(r),
    {
        let ghost bytes = self.0@;
        self.0[1] = self.0[1] & !(1u8 << 0u8);
        proof {
            lemma_flags_clear(bytes, self.0@, 1, 0);
        }
        self
    }

    ///Builder method that sets the presence of `json_name`. Useful for initializing the Hazzer.
    #[inline]
    pub fn init_json_name(self) -> (r: Self)
        ensures
            r@ == self@.update(8, true),
    {
        let mut s = self;
        s.set_json_name();
        s
    }

    ///Query presence of `options`
    #[inline]
    pub fn options(&self) -> (r: bool)
        ensures
            r == self@[9],
    {
        proof {
            lemma_flags_get(self.0@, 1, 1);
        }
        (self.0[1] & (1u8 << 1u8)) != 0
    }

    ///Set presence of `options`
    #[inline]
    pub fn set_options(&mut self) -> (r: &mut Self)
        ensures
            r@ == old(self)@.update(9, true),
            *final(self) == *final(r),
    {
        let ghost bytes = self.0@;
        self.0[1] = self.0[1] | (1u8 << 1u8);
        proof {
            lemma_flags_set(bytes, self.0@, 1, 1);
        }
        self
    }

    ///Clear presence of `options`
    #[inline]
    pub fn clear_options(&mut self) -> (r: &mut Self)
        ensures
            r@ == old(self)@.update(9, false),
            *final(self) == *final(r),
    {
        let ghost bytes = self.0@;
        self.0[1] = self.0[1] & !(1u8 << 1u8);
        proof {
            lemma_flags_clear(bytes, self.0@, 1, 1);
        }
        self
    }

    ///Builder method that sets the presence of `options`. Useful for initializing the Hazzer.
    #[inline]
    pub fn init_options(self) -> (r: Self)
        ensures
            r@ == self@.update(9, true),
    {
        let mut s = self;
        s.set_options();
        s
    }

    ///Query presence of `proto3_optional`
    #[inline]
    pub fn proto3_optional(&self) -> (r: bool)
        ensures
            r == self@[10],
    {
        proof {
            lemma_flags_get(self.0@, 1, 2);
        }
        (self.0[1] & (1u8 << 2u8)) != 0
    }

    ///Set presence of `proto3_optional`
    #[inline]
    pub fn set_proto3_optional(&mut self) -> (r: &mut Self)
        ensures
            r@ == old(self)@.update(10, true),
            *final(self) == *final(r),
    {
        let ghost bytes = self.0@;
        self.0[1] = self.0[1] | (1u8 << 2u8);
        proof {
            lemma_flags_set(bytes, self.0@, 1, 2);
        }
        self
    }

    ///Clear presence of `proto3_optional`
    #[inline]
    pub fn clear_proto3_optional(&mut self) -> (r: &mut Self)
        ensures
            r@ == old(self)@.update(10, false),
            *final(self) == *final(r),
    {
        let ghost bytes = self.0@;
        self.0[1] = self.0[1] & !(1u8 << 2u8);
        proof {
            lemma_flags_clear(bytes, self.0@, 1, 2);
        }
        self
    }

    ///Builder method that sets the presence of `proto3_optional`. Useful for initializing the Hazzer.
    #[inline]
    pub fn init_proto3_optional(self) -> (r: Self)
        ensures
            r@ == self@.update(10, true),
    {
        let mut s = self;
        s.set_proto3_optional();
        s
    }
}

/// The Protobuf message `google.protobuf.FieldDescriptorProto`.
#[derive(Debug)]
pub struct FieldDescriptorProto {
    pub name: String,
    pub number: i32,
    pub label: pb::FieldDescriptorProto_::Label,
    pub type_: pb::FieldDescriptorProto_::Type,
    pub type_name_: String,
    pub extendee: String,
    pub default_value: String,
    pub oneof_index: i32,
    pub json_name: String,
    pub options: pb::FieldOptions_::FieldOptions,
    pub proto3_optional: bool,
    pub _has: _Hazzer,
}

/// The value of a `FieldDescriptorProto` as the contracts see it.
#[verifier::ext_equal]
pub ghost struct FieldDescriptorProtoModel {
    pub name: Seq<char>,
    pub number: i32,
    pub label: pb::FieldDescriptorProto_::Label,
    pub type_: pb::FieldDescriptorProto_::Type,
    pub type_name_: Seq<char>,
    pub extendee: Seq<char>,
    pub default_value: Seq<char>,
    pub oneof_index: i32,
    pub json_name: Seq<char>,
    pub options: pb::FieldOptions_::FieldOptionsModel,
    pub proto3_optional: bool,
    pub _has: Seq<bool>,
}

impl View for FieldDescriptorProto {
    type V = FieldDescriptorProtoModel;

    open spec fn view(&self) -> FieldDescriptorProtoModel {
        FieldDescriptorProtoModel {
            name: self.name@,
            number: self.number,
            label: self.label,
            type_: self.type_,
            type_name_: self.type_name_@,
            extendee: self.extendee@,
            default_value: self.default_value@,
            oneof_index: self.oneof_index,
            json_name: self.json_name@,
            options: self.options@,
            proto3_optional: self.proto3_optional,
            _has: self._has@,
        }
    }
}

impl FieldDescriptorProtoModel {
    /// The value of a `FieldDescriptorProto` with no field set.
    pub open spec fn empty() -> FieldDescriptorProtoModel {
        FieldDescriptorProtoModel {
            name: Seq::empty(),
            number: 0,
            label: pb::FieldDescriptorProto_::Label(0),
            type_: pb::FieldDescriptorProto_::Type(0),
            type_name_: Seq::empty(),
            extendee: Seq::empty(),
            default_value: Seq::empty(),
            oneof_index: 0,
            json_name: Seq::empty(),
            options: pb::FieldOptions_::FieldOptionsModel::empty(),
            proto3_optional: false,
            _has: Seq::new(16, |i: int| false),
        }
    }

    /// The message after the value of the field numbered `num`, with wire type `wt`, at the
    /// start of `s` has been merged into it, and the length of that value. A known field is
    /// read as its own type: a later value of a singular field replaces the earlier one, and
    /// a repeated field gains the values at its end. An unknown field is skipped by its wire
    /// type and leaves the message as it was.
    #[verifier::opaque]
    pub open spec fn merge_field(self, num: u32, wt: u32, s: Seq<u8>) -> Result<(FieldDescriptorProtoModel, nat), DecodeError>
    {
        if num == 1 {
            match parse_len(s) {
                Ok((p, n)) => match parse_string(p) {
                    Ok(t) => Ok(((FieldDescriptorProtoModel { name: t, _has: self._has.update(0, true), ..self }), n)),
                    Err(e) => Err(e),
                },
                Err(e) => Err(e),
            }
        } else if num == 3 {
            match parse_varint(s) {
                Ok((v, n)) => Ok(((FieldDescriptorProtoModel { number: varint_as_i32(v), _has: self._has.update(1, true), ..self }), n)),
                Err(e) => Err(e),
            }
        } else if num == 4 {
            match parse_varint(s) {
                Ok((v, n)) => Ok(((FieldDescriptorProtoModel { label: pb::FieldDescriptorProto_::Label(varint_as_i32(v)), _has: self._has.update(2, true), ..self }), n)),
                Err(e) => Err(e),
            }
        } else if num == 5 {
            match parse_varint(s) {
                Ok((v, n)) => Ok(((FieldDescriptorProtoModel { type_: pb::FieldDescriptorProto_::Type(varint_as_i32(v)), _has: self._has.update(3, true), ..self }), n)),
                Err(e) => Err(e),
            }
        } else if num == 6 {
            match parse_len(s) {
                Ok((p, n)) => match parse_string(p) {
                    Ok(t) => Ok(((FieldDescriptorProtoModel { type_name_: t, _has: self._has.update(4, true), ..self }), n)),
                    Err(e) => Err(e),
                },
                Err(e) => Err(e),
            }
        } else if num == 2 {
            match parse_len(s) {
                Ok((p, n)) => match parse_string(p) {
                    Ok(t) => Ok(((FieldDescriptorProtoModel { extendee: t, _has: self._has.update(5, true), ..self }), n)),
                    Err(e) => Err(e),
                },
                Err(e) => Err(e),
            }
        } else if num == 7 {
            match parse_len(s) {
                Ok((p, n)) => match parse_string(p) {
                    Ok(t) => Ok(((FieldDescriptorProtoModel { default_value: t, _has: self._has.update(6, true), ..self }), n)),
                    Err(e) => Err(e),
                },
                Err(e) => Err(e),
            }
        } else if num == 9 {
            match parse_varint(s) {
                Ok((v, n)) => Ok(((FieldDescriptorProtoModel { oneof_index: varint_as_i32(v), _has: self._has.update(7, true), ..self }), n)),
                Err(e) => Err(e),
            }
        } else if num == 10 {
            match parse_len(s) {
                Ok((p, n)) => match parse_string(p) {
                    Ok(t) => Ok(((FieldDescriptorProtoModel { json_name: t, _has: self._has.update(8, true), ..self }), n)),
                    Err(e) => Err(e),
                },
                Err(e) => Err(e),
            }
        } else if num == 8 {
            match parse_varint(s) {
                Ok((l, m)) => if 0 < m <= s.len() {
                    match self.options.decode_stream(s.subrange(m as int, s.len() as int), l as int) {
                        Ok((x, c)) => Ok(((FieldDescriptorProtoModel { options: x, _has: self._has.update(9, true), ..self }), m + c)),
                        Err(e) => Err(e),
                    }
                } else {
                    Err(DecodeError::UnexpectedEof)
                },
                Err(e) => Err(e),
            }
        } else if num == 17 {
            match parse_varint(s) {
                Ok((v, n)) => Ok(((FieldDescriptorProtoModel { proto3_optional: v != 0, _has: self._has.update(10, true), ..self }), n)),
                Err(e) => Err(e),
            }
        } else {
            match skip_len(s, wt) {
                Ok(n) => Ok((self, n)),
                Err(e) => Err(e),
            }
        }
    }

    /// The message after its fields have been read from the start of `s` while fewer than
    /// `rem` bytes have been read, and how many bytes were read. Each field is read whole,
    /// so the last one may run past `rem`. A field numbered 0 is refused.
    pub open spec fn decode_stream(self, s: Seq<u8>, rem: int) -> Result<(FieldDescriptorProtoModel, nat), DecodeError>
        decreases s.len(),
    {
        if rem <= 0 {
            Ok((self, 0))
        } else {
            match parse_tag(s) {
                Err(e) => Err(e),
                Ok((num, wt, n)) => if num == 0 {
                    Err(DecodeError::ZeroField)
                } else if 0 < n <= s.len() {
                    let rest = s.subrange(n as int, s.len() as int);
                    match self.merge_field(num, wt, rest) {
                        Ok((m, k)) => if k <= rest.len() {
                            shift_consumed(
                                m.decode_stream(rest.subrange(k as int, rest.len() as int), rem - (n + k)),
                                n + k,
                            )
                        } else {
                            Err(DecodeError::UnexpectedEof)
                        },
                        Err(e) => Err(e),
                    }
                } else {
                    Err(DecodeError::UnexpectedEof)
                },
            }
        }
    }

    /// The message after every field in `s` has been merged into it, in order: its fields
    /// read from `s` while fewer than `s.len()` bytes have been read.
    pub open spec fn merge_from(self, s: Seq<u8>) -> Result<FieldDescriptorProtoModel, DecodeError> {
        match self.decode_stream(s, s.len() as int) {
            Ok((m, c)) => Ok(m),
            Err(e) => Err(e),
        }
    }

    /// The message as a failed merge of the field numbered `num`, with wire type `wt`, at
    /// the start of `s` leaves it: a nested message keeps what was read into it before
    /// its own failure, and nothing else changes.
    pub open spec fn merge_field_partial(self, num: u32, wt: u32, s: Seq<u8>) -> FieldDescriptorProtoModel {
        if num == 8 {
            match parse_varint(s) {
                Ok((l, m)) => if 0 < m <= s.len() {
                    FieldDescriptorProtoModel { options: self.options.until_error_stream(s.subrange(m as int, s.len() as int), l as int), ..self }
                } else {
                    self
                },
                Err(e) => self,
            }
        } else {
            self
        }
    }

    /// The message after its fields have been read from the start of `s`, as in
    /// `decode_stream`, up to the first one that fails: that one leaves the message as its
    /// failed merge does, and no field after it is read.
    pub open spec fn until_error_stream(self, s: Seq<u8>, rem: int) -> FieldDescriptorProtoModel
        decreases s.len(),
    {
        if rem <= 0 {
            self
        } else {
            match parse_tag(s) {
                Err(e) => self,
                Ok((num, wt, n)) => if num == 0 {
                    self
                } else if 0 < n <= s.len() {
                    let rest = s.subrange(n as int, s.len() as int);
                    match self.merge_field(num, wt, rest) {
                        Ok((m, k)) => if k <= rest.len() {
                            m.until_error_stream(rest.subrange(k as int, rest.len() as int), rem - (n + k))
                        } else {
                            m
                        },
                        Err(e) => self.merge_field_partial(num, wt, rest),
                    }
                } else {
                    self
                },
            }
        }
    }

    /// The message after the fields of `s` have been merged into it in order, up to the
    /// first one that fails, which leaves the message as its failed merge does. When none
    /// fails, this is what `merge_from` gives.
    pub open spec fn merge_until_error(self, s: Seq<u8>) -> FieldDescriptorProtoModel {
        self.until_error_stream(s, s.len() as int)
    }

    /// Reading fields reads at most the whole input, and at least `rem` bytes when `rem` is
    /// positive.
    pub proof fn lemma_stream_bounds(self, s: Seq<u8>, rem: int)
        ensures
            self.decode_stream(s, rem) matches Ok((m, c)) ==> c <= s.len() && (rem > 0 ==> c >= rem) && (
            rem <= 0 ==> c == 0),
        decreases s.len(),
    {
        if rem > 0 {
            if let Ok((num, wt, n)) = parse_tag(s) {
                if num != 0 && 0 < n <= s.len() {
                    let rest = s.subrange(n as int, s.len() as int);
                    if let Ok((m, k)) = self.merge_field(num, wt, rest) {
                        if k <= rest.len() {
                            m.lemma_stream_bounds(rest.subrange(k as int, rest.len() as int), rem - (n + k));
                        }
                    }
                }
            }
        }
    }

    /// Fields that can be read from `s` read the same from `s` followed by anything.
    pub proof fn lemma_stream_prefix(self, s: Seq<u8>, b: Seq<u8>, rem: int)
        requires
            self.decode_stream(s, rem) is Ok,
        ensures
            self.decode_stream(s + b, rem) == self.decode_stream(s, rem),
        decreases s.len(),
    {
        if rem > 0 {
            lemma_values_prefix(s, b);
            let (num, wt, n) = parse_tag(s)->Ok_0;
            let rest = s.subrange(n as int, s.len() as int);
            assert((s + b).subrange(n as int, (s + b).len() as int) =~= rest + b);
            self.lemma_merge_field_prefix(num, wt, rest, b);
            let (m, k) = self.merge_field(num, wt, rest)->Ok_0;
            let t = rest.subrange(k as int, rest.len() as int);
            assert((rest + b).subrange(k as int, (rest + b).len() as int) =~= t + b);
            m.lemma_stream_prefix(t, b, rem - (n + k));
        }
    }

    proof fn lemma_merge_field_prefix(self, num: u32, wt: u32, s: Seq<u8>, b: Seq<u8>)
        requires
            self.merge_field(num, wt, s) is Ok,
        ensures
            self.merge_field(num, wt, s + b) == self.merge_field(num, wt, s),
        
    {
        reveal(FieldDescriptorProtoModel::merge_field);
        lemma_values_prefix(s, b);
        lemma_len_bounds(s);
        if num == 8 {
            match parse_varint(s) {
                Ok((l, m)) => if 0 < m <= s.len() {
                    let t = s.subrange(m as int, s.len() as int);
                    assert((s + b).subrange(m as int, (s + b).len() as int) =~= t + b);
                    if self.options.decode_stream(t, l as int) is Ok {
                        self.options.lemma_stream_prefix(t, b, l as int);
                    }
                },
                Err(e) => {},
            }
        }
    }

    /// Reading exactly `r1` bytes of fields, then `r2` more, is reading while fewer than
    /// `r1 + r2` bytes have been read.
    proof fn lemma_stream_split(self, s: Seq<u8>, r1: int, r2: int)
        requires
            r1 >= 0,
            r2 >= 0,
            self.decode_stream(s, r1) matches Ok((m, c)) && c == r1,
        ensures
            self.decode_stream(s, r1 + r2) == shift_consumed(
                self.decode_stream(s, r1)->Ok_0.0.decode_stream(s.subrange(r1, s.len() as int), r2),
                r1 as nat,
            ),
        decreases s.len(),
    {
        if r1 > 0 {
            let (num, wt, n) = parse_tag(s)->Ok_0;
            let rest = s.subrange(n as int, s.len() as int);
            let (m, k) = self.merge_field(num, wt, rest)->Ok_0;
            let t = rest.subrange(k as int, rest.len() as int);
            m.lemma_stream_bounds(t, r1 - (n + k));
            assert(t.subrange(r1 - (n + k), t.len() as int) =~= s.subrange(r1, s.len() as int));
            m.lemma_stream_split(t, r1 - (n + k), r2);
        } else {
            assert(s.subrange(0, s.len() as int) =~= s);
        }
    }

    /// Decoding is merging: when the fields of `a` merge into the message without error,
    /// merging `a` followed by `b` gives what merging `b` into that result gives.
    pub proof fn lemma_merge_from_concat(self, a: Seq<u8>, b: Seq<u8>)
        requires
            self.merge_from(a) is Ok,
        ensures
            self.merge_from(a + b) == self.merge_from(a)->Ok_0.merge_from(b),
    {
        self.lemma_stream_bounds(a, a.len() as int);
        self.lemma_stream_prefix(a, b, a.len() as int);
        assert((a + b).len() == a.len() + b.len());
        self.lemma_stream_split(a + b, a.len() as int, b.len() as int);
        assert((a + b).subrange(a.len() as int, (a + b).len() as int) =~= b);
    }

    proof fn lemma_single_field(self, s: Seq<u8>, num: u32, wt: u32, n: nat)
        requires
            parse_tag(s) == Ok::<(u32, u32, nat), DecodeError>((num, wt, n)),
            num != 0,
            self.merge_field(num, wt, s.subrange(n as int, s.len() as int)) matches Ok((m, k)) && n + k == s.len(),
        ensures
            self.merge_from(s) == Ok::<FieldDescriptorProtoModel, DecodeError>(self.merge_field(num, wt, s.subrange(n as int, s.len() as int))->Ok_0.0),
    {
        lemma_tag_bounds(s);
        let rest = s.subrange(n as int, s.len() as int);
        let (m, k) = self.merge_field(num, wt, rest)->Ok_0;
        assert(rest.subrange(k as int, rest.len() as int) =~= Seq::<u8>::empty());
        assert(m.decode_stream(rest.subrange(k as int, rest.len() as int), s.len() - (n + k)) == Ok::<
            (FieldDescriptorProtoModel, nat),
            DecodeError,
        >((m, 0)));
    }

    /// A field numbered 1 holds `name`: decoding a buffer that holds just such a field,
    /// whatever its wire type, sets `name` to the text of its payload, marks it present,
    /// and leaves every other field as it was.
    pub proof fn lemma_decode_name(self, s: Seq<u8>, wt: u32, n: nat, p: Seq<u8>, k: nat)
        requires
            parse_tag(s) == Ok::<(u32, u32, nat), DecodeError>((1, wt, n)),
            parse_len(s.subrange(n as int, s.len() as int)) == Ok::<(Seq<u8>, nat), DecodeError>((p, k)),
            n + k == s.len(),
            valid_utf8(p),
        ensures
            self.merge_from(s) == Ok::<FieldDescriptorProtoModel, DecodeError>((FieldDescriptorProtoModel { name: decode_utf8(p), _has: self._has.update(0, true), ..self })),
    {
        reveal(FieldDescriptorProtoModel::merge_field);
        self.lemma_single_field(s, 1, wt, n);
    }

    /// A field numbered 3 holds `number`: decoding a buffer that holds just such a field,
    /// whatever its wire type, sets `number` to the low 32 bits of the varint, marks it present,
    /// and leaves every other field as it was.
    pub proof fn lemma_decode_number(self, s: Seq<u8>, wt: u32, n: nat, v: u64, k: nat)
        requires
            parse_tag(s) == Ok::<(u32, u32, nat), DecodeError>((3, wt, n)),
            parse_varint(s.subrange(n as int, s.len() as int)) == Ok::<(u64, nat), DecodeError>((v, k)),
            n + k == s.len(),
        ensures
            self.merge_from(s) == Ok::<FieldDescriptorProtoModel, DecodeError>((FieldDescriptorProtoModel { number: varint_as_i32(v), _has: self._has.update(1, true), ..self })),
    {
        reveal(FieldDescriptorProtoModel::merge_field);
        self.lemma_single_field(s, 3, wt, n);
    }

    /// A field numbered 4 holds `label`: decoding a buffer that holds just such a field,
    /// whatever its wire type, sets `label` to the low 32 bits of the varint, marks it present,
    /// and leaves every other field as it was.
    pub proof fn lemma_decode_label(self, s: Seq<u8>, wt: u32, n: nat, v: u64, k: nat)
        requires
            parse_tag(s) == Ok::<(u32, u32, nat), DecodeError>((4, wt, n)),
            parse_varint(s.subrange(n as int, s.len() as int)) == Ok::<(u64, nat), DecodeError>((v, k)),
            n + k == s.len(),
        ensures
            self.merge_from(s) == Ok::<FieldDescriptorProtoModel, DecodeError>((FieldDescriptorProtoModel { label: pb::FieldDescriptorProto_::Label(varint_as_i32(v)), _has: self._has.update(2, true), ..self })),
    {
        reveal(FieldDescriptorProtoModel::merge_field);
        self.lemma_single_field(s, 4, wt, n);
    }

    /// A field numbered 5 holds `type`: decoding a buffer that holds just such a field,
    /// whatever its wire type, sets `type` to the low 32 bits of the varint, marks it present,
    /// and leaves every other field as it was.
    pub proof fn lemma_decode_type(self, s: Seq<u8>, wt: u32, n: nat, v: u64, k: nat)
        requires
            parse_tag(s) == Ok::<(u32, u32, nat), DecodeError>((5, wt, n)),
            parse_varint(s.subrange(n as int, s.len() as int)) == Ok::<(u64, nat), DecodeError>((v, k)),
            n + k == s.len(),
        ensures
            self.merge_from(s) == Ok::<FieldDescriptorProtoModel, DecodeError>((FieldDescriptorProtoModel { type_: pb::FieldDescriptorProto_::Type(varint_as_i32(v)), _has: self._has.update(3, true), ..self })),
    {
        reveal(FieldDescriptorProtoModel::merge_field);
        self.lemma_single_field(s, 5, wt, n);
    }

    /// A field numbered 6 holds `type_name`: decoding a buffer that holds just such a field,
    /// whatever its wire type, sets `type_name` to the text of its payload, marks it present,
    /// and leaves every other field as it was.
    pub proof fn lemma_decode_type_name(self, s: Seq<u8>, wt: u32, n: nat, p: Seq<u8>, k: nat)
        requires
            parse_tag(s) == Ok::<(u32, u32, nat), DecodeError>((6, wt, n)),
            parse_len(s.subrange(n as int, s.len() as int)) == Ok::<(Seq<u8>, nat), DecodeError>((p, k)),
            n + k == s.len(),
            valid_utf8(p),
        ensures
            self.merge_from(s) == Ok::<FieldDescriptorProtoModel, DecodeError>((FieldDescriptorProtoModel { type_name_: decode_utf8(p), _has: self._has.update(4, true), ..self })),
    {
        reveal(FieldDescriptorProtoModel::merge_field);
        self.lemma_single_field(s, 6, wt, n);
    }

    /// A field numbered 2 holds `extendee`: decoding a buffer that holds just such a field,
    /// whatever its wire type, sets `extendee` to the text of its payload, marks it present,
    /// and leaves every other field as it was.
    pub proof fn lemma_decode_extendee(self, s: Seq<u8>, wt: u32, n: nat, p: Seq<u8>, k: nat)
        requires
            parse_tag(s) == Ok::<(u32, u32, nat), DecodeError>((2, wt, n)),
            parse_len(s.subrange(n as int, s.len() as int)) == Ok::<(Seq<u8>, nat), DecodeError>((p, k)),
            n + k == s.len(),
            valid_utf8(p),
        ensures
            self.merge_from(s) == Ok::<FieldDescriptorProtoModel, DecodeError>((FieldDescriptorProtoModel { extendee: decode_utf8(p), _has: self._has.update(5, true), ..self })),
    {
        reveal(FieldDescriptorProtoModel::merge_field);
        self.lemma_single_field(s, 2, wt, n);
    }

    /// A field numbered 7 holds `default_value`: decoding a buffer that holds just such a field,
    /// whatever its wire type, sets `default_value` to the text of its payload, marks it present,
    /// and leaves every other field as it was.
    pub proof fn lemma_decode_default_value(self, s: Seq<u8>, wt: u32, n: nat, p: Seq<u8>, k: nat)
        requires
            parse_tag(s) == Ok::<(u32, u32, nat), DecodeError>((7, wt, n)),
            parse_len(s.subrange(n as int, s.len() as int)) == Ok::<(Seq<u8>, nat), DecodeError>((p, k)),
            n + k == s.len(),
            valid_utf8(p),
        ensures
            self.merge_from(s) == Ok::<FieldDescriptorProtoModel, DecodeError>((FieldDescriptorProtoModel { default_value: decode_utf8(p), _has: self._has.update(6, true), ..self })),
    {
        reveal(FieldDescriptorProtoModel::merge_field);
        self.lemma_single_field(s, 7, wt, n);
    }

    /// A field numbered 9 holds `oneof_index`: decoding a buffer that holds just such a field,
    /// whatever its wire type, sets `oneof_index` to the low 32 bits of the varint, marks it present,
    /// and leaves every other field as it was.
    pub proof fn lemma_decode_oneof_index(self, s: Seq<u8>, wt: u32, n: nat, v: u64, k: nat)
        requires
            parse_tag(s) == Ok::<(u32, u32, nat), DecodeError>((9, wt, n)),
            parse_varint(s.subrange(n as int, s.len() as int)) == Ok::<(u64, nat), DecodeError>((v, k)),
            n + k == s.len(),
        ensures
            self.merge_from(s) == Ok::<FieldDescriptorProtoModel, DecodeError>((FieldDescriptorProtoModel { oneof_index: varint_as_i32(v), _has: self._has.update(7, true), ..self })),
    {
        reveal(FieldDescriptorProtoModel::merge_field);
        self.lemma_single_field(s, 9, wt, n);
    }

    /// A field numbered 10 holds `json_name`: decoding a buffer that holds just such a field,
    /// whatever its wire type, sets `json_name` to the text of its payload, marks it present,
    /// and leaves every other field as it was.
    pub proof fn lemma_decode_json_name(self, s: Seq<u8>, wt: u32, n: nat, p: Seq<u8>, k: nat)
        requires
            parse_tag(s) == Ok::<(u32, u32, nat), DecodeError>((10, wt, n)),
            parse_len(s.subrange(n as int, s.len() as int)) == Ok::<(Seq<u8>, nat), DecodeError>((p, k)),
            n + k == s.len(),
            valid_utf8(p),
        ensures
            self.merge_from(s) == Ok::<FieldDescriptorProtoModel, DecodeError>((FieldDescriptorProtoModel { json_name: decode_utf8(p), _has: self._has.update(8, true), ..self })),
    {
        reveal(FieldDescriptorProtoModel::merge_field);
        self.lemma_single_field(s, 10, wt, n);
    }

    /// A field numbered 8 holds `options`: decoding a buffer that holds just such a field,
    /// whatever its wire type, merges its payload into `options`, marks it present,
    /// and leaves every other field as it was.
    pub proof fn lemma_decode_options(self, s: Seq<u8>, wt: u32, n: nat, l: u64, m: nat, x: pb::FieldOptions_::FieldOptionsModel)
        requires
            parse_tag(s) == Ok::<(u32, u32, nat), DecodeError>((8, wt, n)),
            parse_varint(s.subrange(n as int, s.len() as int)) == Ok::<(u64, nat), DecodeError>((l, m)),
            n + m + l == s.len(),
            self.options.merge_from(s.subrange((n + m) as int, s.len() as int)) == Ok::<pb::FieldOptions_::FieldOptionsModel, DecodeError>(x),
        ensures
            self.merge_from(s) == Ok::<FieldDescriptorProtoModel, DecodeError>((FieldDescriptorProtoModel { options: x, _has: self._has.update(9, true), ..self })),
    {
        reveal(FieldDescriptorProtoModel::merge_field);
        lemma_tag_bounds(s);
        lemma_varint_bounds(s.subrange(n as int, s.len() as int));
        assert(s.subrange(n as int, s.len() as int).subrange(m as int, s.subrange(n as int, s.len() as int).len() as int) =~= s.subrange((n + m) as int, s.len() as int));
        self.options.lemma_stream_bounds(s.subrange((n + m) as int, s.len() as int), l as int);
        self.lemma_single_field(s, 8, wt, n);
    }

    /// A field numbered 17 holds `proto3_optional`: decoding a buffer that holds just such a field,
    /// whatever its wire type, sets `proto3_optional` to whether the varint is nonzero, marks it present,
    /// and leaves every other field as it was.
    pub proof fn lemma_decode_proto3_optional(self, s: Seq<u8>, wt: u32, n: nat, v: u64, k: nat)
        requires
            parse_tag(s) == Ok::<(u32, u32, nat), DecodeError>((17, wt, n)),
            parse_varint(s.subrange(n as int, s.len() as int)) == Ok::<(u64, nat), DecodeError>((v, k)),
            n + k == s.len(),
        ensures
            self.merge_from(s) == Ok::<FieldDescriptorProtoModel, DecodeError>((FieldDescriptorProtoModel { proto3_optional: v != 0, _has: self._has.update(10, true), ..self })),
    {
        reveal(FieldDescriptorProtoModel::merge_field);
        self.lemma_single_field(s, 17, wt, n);
    }

    /// A field whose number this message does not define is skipped by its wire type:
    /// decoding a buffer that holds just such a field leaves the message as it was.
    pub proof fn lemma_decode_unknown(self, s: Seq<u8>, num: u32, wt: u32, n: nat, k: nat)
        requires
            parse_tag(s) == Ok::<(u32, u32, nat), DecodeError>((num, wt, n)),
            num != 0,
            num != 1 && num != 3 && num != 4 && num != 5 && num != 6 && num != 2 && num != 7 && num != 9 && num != 10 && num != 8 && num != 17,
            skip_len(s.subrange(n as int, s.len() as int), wt) == Ok::<nat, DecodeError>(k),
            n + k == s.len(),
        ensures
            self.merge_from(s) == Ok::<FieldDescriptorProtoModel, DecodeError>(self),
    {
        reveal(FieldDescriptorProtoModel::merge_field);
        self.lemma_single_field(s, num, wt, n);
    }
}

impl Default for FieldDescriptorProto {
    fn default() -> (r: Self)
        ensures
            r@ == FieldDescriptorProtoModel::empty(),
    {
        let r = FieldDescriptorProto {
            name: String::new(),
            number: 0,
            label: pb::FieldDescriptorProto_::Label::default(),
            type_: pb::FieldDescriptorProto_::Type::default(),
            type_name_: String::new(),
            extendee: String::new(),
            default_value: String::new(),
            oneof_index: 0,
            json_name: String::new(),
            options: pb::FieldOptions_::FieldOptions::default(),
            proto3_optional: false,
            _has: _Hazzer::default(),
        };
        assert(r@ =~= FieldDescriptorProtoModel::empty());
        r
    }
}

impl FieldDescriptorProto {
    ///Return a reference to `name` as an `Option`
    #[inline]
    pub fn name(&self) -> (r: Option<&String>)
        ensures
            r == (if self._has@[0] {
                Some(&self.name)
            } else {
                None
            }),
    {
        if self._has.name() {
            Some(&self.name)
        } else {
            None
        }
    }

    ///Return a mutable reference to `name` as an `Option`
    #[inline]
    pub fn mut_name(&mut self) -> (r: Option<&mut String>)
        ensures
            old(self)._has@[0] ==> r is Some && *r->0 == old(self).name && final(self).name
                == *final(r->0) && *final(self) == (FieldDescriptorProto { name: final(self).name, ..*old(self) }),
            !old(self)._has@[0] ==> r is None && *final(self) == *old(self),
    {
        if self._has.name() {
            Some(&mut self.name)
        } else {
            None
        }
    }

    ///Set the value and presence of `name`
    #[inline]
    pub fn set_name(&mut self, value: String) -> (r: &mut Self)
        ensures
            r._has@ == old(self)._has@.update(0, true),
            *r == (FieldDescriptorProto { name: value, _has: r._has, ..*old(self) }),
            *final(self) == *final(r),
    {
        self._has.set_name();
        self.name = value;
        self
    }

    ///Clear the presence of `name`
    #[inline]
    pub fn clear_name(&mut self) -> (r: &mut Self)
        ensures
            r._has@ == old(self)._has@.update(0, false),
            *r == (FieldDescriptorProto { _has: r._has, ..*old(self) }),
            *final(self) == *final(r),
    {
        self._has.clear_name();
        self
    }

    ///Take the value of `name` and clear its presence
    #[inline]
    pub fn take_name(&mut self) -> (r: Option<String>)
        ensures
            r == (if old(self)._has@[0] {
                Some(old(self).name)
            } else {
                None
            }),
            final(self)._has@ == old(self)._has@.update(0, false),
            old(self)._has@[0] ==> final(self).name@ == Seq::<char>::empty(),
            !old(self)._has@[0] ==> final(self).name == old(self).name,
            *final(self) == (FieldDescriptorProto { name: final(self).name, _has: final(self)._has, ..*old(self) }),
    {
        let val = if self._has.name() {
            let mut v: String = String::new();
            std::mem::swap(&mut self.name, &mut v);
            Some(v)
        } else {
            None
        };
        self._has.clear_name();
        val
    }

    ///Builder method that sets the value of `name`. Useful for initializing the message.
    #[inline]
    pub fn init_name(self, value: String) -> (r: Self)
        ensures
            r._has@ == self._has@.update(0, true),
            r == (FieldDescriptorProto { name: value, _has: r._has, ..self }),
    {
        let mut s = self;
        s.set_name(value);
        s
    }

    ///Return a reference to `number` as an `Option`
    #[inline]
    pub fn number(&self) -> (r: Option<&i32>)
        ensures
            r == (if self._has@[1] {
                Some(&self.number)
            } else {
                None
            }),
    {
        if self._has.number() {
            Some(&self.number)
        } else {
            None
        }
    }

    ///Return a mutable reference to `number` as an `Option`
    #[inline]
    pub fn mut_number(&mut self) -> (r: Option<&mut i32>)
        ensures
            old(self)._has@[1] ==> r is Some && *r->0 == old(self).number && final(self).number
                == *final(r->0) && *final(self) == (FieldDescriptorProto { number: final(self).number, ..*old(self) }),
            !old(self)._has@[1] ==> r is None && *final(self) == *old(self),
    {
        if self._has.number() {
            Some(&mut self.number)
        } else {
            None
        }
    }

    ///Set the value and presence of `number`
    #[inline]
    pub fn set_number(&mut self, value: i32) -> (r: &mut Self)
        ensures
            r._has@ == old(self)._has@.update(1, true),
            *r == (FieldDescriptorProto { number: value, _has: r._has, ..*old(self) }),
            *final(self) == *final(r),
    {
        self._has.set_number();
        self.number = value;
        self
    }

    ///Clear the presence of `number`
    #[inline]
    pub fn clear_number(&mut self) -> (r: &mut Self)
        ensures
            r._has@ == old(self)._has@.update(1, false),
            *r == (FieldDescriptorProto { _has: r._has, ..*old(self) }),
            *final(self) == *final(r),
    {
        self._has.clear_number();
        self
    }

    ///Take the value of `number` and clear its presence
    #[inline]
    pub fn take_number(&mut self) -> (r: Option<i32>)
        ensures
            r == (if old(self)._has@[1] {
                Some(old(self).number)
            } else {
                None
            }),
            final(self)._has@ == old(self)._has@.update(1, false),
            old(self)._has@[1] ==> final(self).number == 0,
            !old(self)._has@[1] ==> final(self).number == old(self).number,
            *final(self) == (FieldDescriptorProto { number: final(self).number, _has: final(self)._has, ..*old(self) }),
    {
        let val = if self._has.number() {
            let mut v: i32 = 0;
            std::mem::swap(&mut self.number, &mut v);
            Some(v)
        } else {
            None
        };
        self._has.clear_number();
        val
    }

    ///Builder method that sets the value of `number`. Useful for initializing the message.
    #[inline]
    pub fn init_number(self, value: i32) -> (r: Self)
        ensures
            r._has@ == self._has@.update(1, true),
            r == (FieldDescriptorProto { number: value, _has: r._has, ..self }),
    {
        let mut s = self;
        s.set_number(value);
        s
    }

    ///Return a reference to `label` as an `Option`
    #[inline]
    pub fn label(&self) -> (r: Option<&pb::FieldDescriptorProto_::Label>)
        ensures
            r == (if self._has@[2] {
                Some(&self.label)
            } else {
                None
            }),
    {
        if self._has.label() {
            Some(&self.label)
        } else {
            None
        }
    }

    ///Return a mutable reference to `label` as an `Option`
    #[inline]
    pub fn mut_label(&mut self) -> (r: Option<&mut pb::FieldDescriptorProto_::Label>)
        ensures
            old(self)._has@[2] ==> r is Some && *r->0 == old(self).label && final(self).label
                == *final(r->0) && *final(self) == (FieldDescriptorProto { label: final(self).label, ..*old(self) }),
            !old(self)._has@[2] ==> r is None && *final(self) == *old(self),
    {
        if self._has.label() {
            Some(&mut self.label)
        } else {
            None
        }
    }

    ///Set the value and presence of `label`
    #[inline]
    pub fn set_label(&mut self, value: pb::FieldDescriptorProto_::Label) -> (r: &mut Self)
        ensures
            r._has@ == old(self)._has@.update(2, true),
            *r == (FieldDescriptorProto { label: value, _has: r._has, ..*old(self) }),
            *final(self) == *final(r),
    {
        self._has.set_label();
        self.label = value;
        self
    }

    ///Clear the presence of `label`
    #[inline]
    pub fn clear_label(&mut self) -> (r: &mut Self)
        ensures
            r._has@ == old(self)._has@.update(2, false),
            *r == (FieldDescriptorProto { _has: r._has, ..*old(self) }),
            *final(self) == *final(r),
    {
        self._has.clear_label();
        self
    }

    ///Take the value of `label` and clear its presence
    #[inline]
    pub fn take_label(&mut self) -> (r: Option<pb::FieldDescriptorProto_::Label>)
        ensures
            r == (if old(self)._has@[2] {
                Some(old(self).label)
            } else {
                None
            }),
            final(self)._has@ == old(self)._has@.update(2, false),
            old(self)._has@[2] ==> final(self).label == pb::FieldDescriptorProto_::Label(0),
            !old(self)._has@[2] ==> final(self).label == old(self).label,
            *final(self) == (FieldDescriptorProto { label: final(self).label, _has: final(self)._has, ..*old(self) }),
    {
        let val = if self._has.label() {
            let mut v: pb::FieldDescriptorProto_::Label = pb::FieldDescriptorProto_::Label::default();
            std::mem::swap(&mut self.label, &mut v);
            Some(v)
        } else {
            None
        };
        self._has.clear_label();
        val
    }

    ///Builder method that sets the value of `label`. Useful for initializing the message.
    #[inline]
    pub fn init_label(self, value: pb::FieldDescriptorProto_::Label) -> (r: Self)
        ensures
            r._has@ == self._has@.update(2, true),
            r == (FieldDescriptorProto { label: value, _has: r._has, ..self }),
    {
        let mut s = self;
        s.set_label(value);
        s
    }

    ///Return a reference to `type` as an `Option`
    #[inline]
    pub fn type_(&self) -> (r: Option<&pb::FieldDescriptorProto_::Type>)
        ensures
            r == (if self._has@[3] {
                Some(&self.type_)
            } else {
                None
            }),
    {
        if self._has.type_() {
            Some(&self.type_)
        } else {
            None
        }
    }

    ///Return a mutable reference to `type` as an `Option`
    #[inline]
    pub fn mut_type(&mut self) -> (r: Option<&mut pb::FieldDescriptorProto_::Type>)
        ensures
            old(self)._has@[3] ==> r is Some && *r->0 == old(self).type_ && final(self).type_
                == *final(r->0) && *final(self) == (FieldDescriptorProto { type_: final(self).type_, ..*old(self) }),
            !old(self)._has@[3] ==> r is None && *final(self) == *old(self),
    {
        if self._has.type_() {
            Some(&mut self.type_)
        } else {
            None
        }
    }

    ///Set the value and presence of `type`
    #[inline]
    pub fn set_type(&mut self, value: pb::FieldDescriptorProto_::Type) -> (r: &mut Self)
        ensures
            r._has@ == old(self)._has@.update(3, true),
            *r == (FieldDescriptorProto { type_: value, _has: r._has, ..*old(self) }),
            *final(self) == *final(r),
    {
        self._has.set_type();
        self.type_ = value;
        self
    }

    ///Clear the presence of `type`
    #[inline]
    pub fn clear_type(&mut self) -> (r: &mut Self)
        ensures
            r._has@ == old(self)._has@.update(3, false),
            *r == (FieldDescriptorProto { _has: r._has, ..*old(self) }),
            *final(self) == *final(r),
    {
        self._has.clear_type();
        self
    }

    ///Take the value of `type` and clear its presence
    #[inline]
    pub fn take_type(&mut self) -> (r: Option<pb::FieldDescriptorProto_::Type>)
        ensures
            r == (if old(self)._has@[3] {
                Some(old(self).type_)
            } else {
                None
            }),
            final(self)._has@ == old(self)._has@.update(3, false),
            old(self)._has@[3] ==> final(self).type_ == pb::FieldDescriptorProto_::Type(0),
            !old(self)._has@[3] ==> final(self).type_ == old(self).type_,
            *final(self) == (FieldDescriptorProto { type_: final(self).type_, _has: final(self)._has, ..*old(self) }),
    {
        let val = if self._has.type_() {
            let mut v: pb::FieldDescriptorProto_::Type = pb::FieldDescriptorProto_::Type::default();
            std::mem::swap(&mut self.type_, &mut v);
            Some(v)
        } else {
            None
        };
        self._has.clear_type();
        val
    }

    ///Builder method that sets the value of `type`. Useful for initializing the message.
    #[inline]
    pub fn init_type(self, value: pb::FieldDescriptorProto_::Type) -> (r: Self)
        ensures
            r._has@ == self._has@.update(3, true),
            r == (FieldDescriptorProto { type_: value, _has: r._has, ..self }),
    {
        let mut s = self;
        s.set_type(value);
        s
    }

    ///Return a reference to `type_name` as an `Option`
    #[inline]
    pub fn type_name_(&self) -> (r: Option<&String>)
        ensures
            r == (if self._has@[4] {
                Some(&self.type_name_)
            } else {
                None
            }),
    {
        if self._has.type_name_() {
            Some(&self.type_name_)
        } else {
            None
        }
    }

    ///Return a mutable reference to `type_name` as an `Option`
    #[inline]
    pub fn mut_type_name(&mut self) -> (r: Option<&mut String>)
        ensures
            old(self)._has@[4] ==> r is Some && *r->0 == old(self).type_name_ && final(self).type_name_
                == *final(r->0) && *final(self) == (FieldDescriptorProto { type_name_: final(self).type_name_, ..*old(self) }),
            !old(self)._has@[4] ==> r is None && *final(self) == *old(self),
    {
        if self._has.type_name_() {
            Some(&mut self.type_name_)
        } else {
            None
        }
    }

    ///Set the value and presence of `type_name`
    #[inline]
    pub fn set_type_name(&mut self, value: String) -> (r: &mut Self)
        ensures
            r._has@ == old(self)._has@.update(4, true),
            *r == (FieldDescriptorProto { type_name_: value, _has: r._has, ..*old(self) }),
            *final(self) == *final(r),
    {
        self._has.set_type_name();
        self.type_name_ = value;
        self
    }

    ///Clear the presence of `type_name`
    #[inline]
    pub fn clear_type_name(&mut self) -> (r: &mut Self)
        ensures
            r._has@ == old(self)._has@.update(4, false),
            *r == (FieldDescriptorProto { _has: r._has, ..*old(self) }),
            *final(self) == *final(r),
    {
        self._has.clear_type_name();
        self
    }

    ///Take the value of `type_name` and clear its presence
    #[inline]
    pub fn take_type_name(&mut self) -> (r: Option<String>)
        ensures
            r == (if old(self)._has@[4] {
                Some(old(self).type_name_)
            } else {
                None
            }),
            final(self)._has@ == old(self)._has@.update(4, false),
            old(self)._has@[4] ==> final(self).type_name_@ == Seq::<char>::empty(),
            !old(self)._has@[4] ==> final(self).type_name_ == old(self).type_name_,
            *final(self) == (FieldDescriptorProto { type_name_: final(self).type_name_, _has: final(self)._has, ..*old(self) }),
    {
        let val = if self._has.type_name_() {
            let mut v: String = String::new();
            std::mem::swap(&mut self.type_name_, &mut v);
            Some(v)
        } else {
            None
        };
        self._has.clear_type_name();
        val
    }

    ///Builder method that sets the value of `type_name`. Useful for initializing the message.
    #[inline]
    pub fn init_type_name(self, value: String) -> (r: Self)
        ensures
            r._has@ == self._has@.update(4, true),
            r == (FieldDescriptorProto { type_name_: value, _has: r._has, ..self }),
    {
        let mut s = self;
        s.set_type_name(value);
        s
    }

    ///Return a reference to `extendee` as an `Option`
    #[inline]
    pub fn extendee(&self) -> (r: Option<&String>)
        ensures
            r == (if self._has@[5] {
                Some(&self.extendee)
            } else {
                None
            }),
    {
        if self._has.extendee() {
            Some(&self.extendee)
        } else {
            None
        }
    }

    ///Return a mutable reference to `extendee` as an `Option`
    #[inline]
    pub fn mut_extendee(&mut self) -> (r: Option<&mut String>)
        ensures
            old(self)._has@[5] ==> r is Some && *r->0 == old(self).extendee && final(self).extendee
                == *final(r->0) && *final(self) == (FieldDescriptorProto { extendee: final(self).extendee, ..*old(self) }),
            !old(self)._has@[5] ==> r is None && *final(self) == *old(self),
    {
        if self._has.extendee() {
            Some(&mut self.extendee)
        } else {
            None
        }
    }

    ///Set the value and presence of `extendee`
    #[inline]
    pub fn set_extendee(&mut self, value: String) -> (r: &mut Self)
        ensures
            r._has@ == old(self)._has@.update(5, true),
            *r == (FieldDescriptorProto { extendee: value, _has: r._has, ..*old(self) }),
            *final(self) == *final(r),
    {
        self._has.set_extendee();
        self.extendee = value;
        self
    }

    ///Clear the presence of `extendee`
    #[inline]
    pub fn clear_extendee(&mut self) -> (r: &mut Self)
        ensures
            r._has@ == old(self)._has@.update(5, false),
            *r == (FieldDescriptorProto { _has: r._has, ..*old(self) }),
            *final(self) == *final(r),
    {
        self._has.clear_extendee();
        self
    }

    ///Take the value of `extendee` and clear its presence
    #[inline]
    pub fn take_extendee(&mut self) -> (r: Option<String>)
        ensures
            r == (if old(self)._has@[5] {
                Some(old(self).extendee)
            } else {
                None
            }),
            final(self)._has@ == old(self)._has@.update(5, false),
            old(self)._has@[5] ==> final(self).extendee@ == Seq::<char>::empty(),
            !old(self)._has@[5] ==> final(self).extendee == old(self).extendee,
            *final(self) == (FieldDescriptorProto { extendee: final(self).extendee, _has: final(self)._has, ..*old(self) }),
    {
        let val = if self._has.extendee() {
            let mut v: String = String::new();
            std::mem::swap(&mut self.extendee, &mut v);
            Some(v)
        } else {
            None
        };
        self._has.clear_extendee();
        val
    }

    ///Builder method that sets the value of `extendee`. Useful for initializing the message.
    #[inline]
    pub fn init_extendee(self, value: String) -> (r: Self)
        ensures
            r._has@ == self._has@.update(5, true),
            r == (FieldDescriptorProto { extendee: value, _has: r._has, ..self }),
    {
        let mut s = self;
        s.set_extendee(value);
        s
    }

    ///Return a reference to `default_value` as an `Option`
    #[inline]
    pub fn default_value(&self) -> (r: Option<&String>)
        ensures
            r == (if self._has@[6] {
                Some(&self.default_value)
            } else {
                None
            }),
    {
        if self._has.default_value() {
            Some(&self.default_value)
        } else {
            None
        }
    }

    ///Return a mutable reference to `default_value` as an `Option`
    #[inline]
    pub fn mut_default_value(&mut self) -> (r: Option<&mut String>)
        ensures
            old(self)._has@[6] ==> r is Some && *r->0 == old(self).default_value && final(self).default_value
                == *final(r->0) && *final(self) == (FieldDescriptorProto { default_value: final(self).default_value, ..*old(self) }),
            !old(self)._has@[6] ==> r is None && *final(self) == *old(self),
    {
        if self._has.default_value() {
            Some(&mut self.default_value)
        } else {
            None
        }
    }

    ///Set the value and presence of `default_value`
    #[inline]
    pub fn set_default_value(&mut self, value: String) -> (r: &mut Self)
        ensures
            r._has@ == old(self)._has@.update(6, true),
            *r == (FieldDescriptorProto { default_value: value, _has: r._has, ..*old(self) }),
            *final(self) == *final(r),
    {
        self._has.set_default_value();
        self.default_value = value;
        self
    }

    ///Clear the presence of `default_value`
    #[inline]
    pub fn clear_default_value(&mut self) -> (r: &mut Self)
        ensures
            r._has@ == old(self)._has@.update(6, false),
            *r == (FieldDescriptorProto { _has: r._has, ..*old(self) }),
            *final(self) == *final(r),
    {
        self._has.clear_default_value();
        self
    }

    ///Take the value of `default_value` and clear its presence
    #[inline]
    pub fn take_default_value(&mut self) -> (r: Option<String>)
        ensures
            r == (if old(self)._has@[6] {
                Some(old(self).default_value)
            } else {
                None
            }),
            final(self)._has@ == old(self)._has@.update(6, false),
            old(self)._has@[6] ==> final(self).default_value@ == Seq::<char>::empty(),
            !old(self)._has@[6] ==> final(self).default_value == old(self).default_value,
            *final(self) == (FieldDescriptorProto { default_value: final(self).default_value, _has: final(self)._has, ..*old(self) }),
    {
        let val = if self._has.default_value() {
            let mut v: String = String::new();
            std::mem::swap(&mut self.default_value, &mut v);
            Some(v)
        } else {
            None
        };
        self._has.clear_default_value();
        val
    }

    ///Builder method that sets the value of `default_value`. Useful for initializing the message.
    #[inline]
    pub fn init_default_value(self, value: String) -> (r: Self)
        ensures
            r._has@ == self._has@.update(6, true),
            r == (FieldDescriptorProto { default_value: value, _has: r._has, ..self }),
    {
        let mut s = self;
        s.set_default_value(value);
        s
    }

    ///Return a reference to `oneof_index` as an `Option`
    #[inline]
    pub fn oneof_index(&self) -> (r: Option<&i32>)
        ensures
            r == (if self._has@[7] {
                Some(&self.oneof_index)
            } else {
                None
            }),
    {
        if self._has.oneof_index() {
            Some(&self.oneof_index)
        } else {
            None
        }
    }

    ///Return a mutable reference to `oneof_index` as an `Option`
    #[inline]
    pub fn mut_oneof_index(&mut self) -> (r: Option<&mut i32>)
        ensures
            old(self)._has@[7] ==> r is Some && *r->0 == old(self).oneof_index && final(self).oneof_index
                == *final(r->0) && *final(self) == (FieldDescriptorProto { oneof_index: final(self).oneof_index, ..*old(self) }),
            !old(self)._has@[7] ==> r is None && *final(self) == *old(self),
    {
        if self._has.oneof_index() {
            Some(&mut self.oneof_index)
        } else {
            None
        }
    }

    ///Set the value and presence of `oneof_index`
    #[inline]
    pub fn set_oneof_index(&mut self, value: i32) -> (r: &mut Self)
        ensures
            r._has@ == old(self)._has@.update(7, true),
            *r == (FieldDescriptorProto { oneof_index: value, _has: r._has, ..*old(self) }),
            *final(self) == *final(r),
    {
        self._has.set_oneof_index();
        self.oneof_index = value;
        self
    }

    ///Clear the presence of `oneof_index`
    #[inline]
    pub fn clear_oneof_index(&mut self) -> (r: &mut Self)
        ensures
            r._has@ == old(self)._has@.update(7, false),
            *r == (FieldDescriptorProto { _has: r._has, ..*old(self) }),
            *final(self) == *final(r),
    {
        self._has.clear_oneof_index();
        self
    }

    ///Take the value of `oneof_index` and clear its presence
    #[inline]
    pub fn take_oneof_index(&mut self) -> (r: Option<i32>)
        ensures
            r == (if old(self)._has@[7] {
                Some(old(self).oneof_index)
            } else {
                None
            }),
            final(self)._has@ == old(self)._has@.update(7, false),
            old(self)._has@[7] ==> final(self).oneof_index == 0,
            !old(self)._has@[7] ==> final(self).oneof_index == old(self).oneof_index,
            *final(self) == (FieldDescriptorProto { oneof_index: final(self).oneof_index, _has: final(self)._has, ..*old(self) }),
    {
        let val = if self._has.oneof_index() {
            let mut v: i32 = 0;
            std::mem::swap(&mut self.oneof_index, &mut v);
            Some(v)
        } else {
            None
        };
        self._has.clear_oneof_index();
        val
    }

    ///Builder method that sets the value of `oneof_index`. Useful for initializing the message.
    #[inline]
    pub fn init_oneof_index(self, value: i32) -> (r: Self)
        ensures
            r._has@ == self._has@.update(7, true),
            r == (FieldDescriptorProto { oneof_index: value, _has: r._has, ..self }),
    {
        let mut s = self;
        s.set_oneof_index(value);
        s
    }

    ///Return a reference to `json_name` as an `Option`
    #[inline]
    pub fn json_name(&self) -> (r: Option<&String>)
        ensures
            r == (if self._has@[8] {
                Some(&self.json_name)
            } else {
                None
            }),
    {
        if self._has.json_name() {
            Some(&self.json_name)
        } else {
            None
        }
    }

    ///Return a mutable reference to `json_name` as an `Option`
    #[inline]
    pub fn mut_json_name(&mut self) -> (r: Option<&mut String>)
        ensures
            old(self)._has@[8] ==> r is Some && *r->0 == old(self).json_name && final(self).json_name
                == *final(r->0) && *final(self) == (FieldDescriptorProto { json_name: final(self).json_name, ..*old(self) }),
            !old(self)._has@[8] ==> r is None && *final(self) == *old(self),
    {
        if self._has.json_name() {
            Some(&mut self.json_name)
        } else {
            None
        }
    }

    ///Set the value and presence of `json_name`
    #[inline]
    pub fn set_json_name(&mut self, value: String) -> (r: &mut Self)
        ensures
            r._has@ == old(self)._has@.update(8, true),
            *r == (FieldDescriptorProto { json_name: value, _has: r._has, ..*old(self) }),
            *final(self) == *final(r),
    {
        self._has.set_json_name();
        self.json_name = value;
        self
    }

    ///Clear the presence of `json_name`
    #[inline]
    pub fn clear_json_name(&mut self) -> (r: &mut Self)
        ensures
            r._has@ == old(self)._has@.update(8, false),
            *r == (FieldDescriptorProto { _has: r._has, ..*old(self) }),
            *final(self) == *final(r),
    {
        self._has.clear_json_name();
        self
    }

    ///Take the value of `json_name` and clear its presence
    #[inline]
    pub fn take_json_name(&mut self) -> (r: Option<String>)
        ensures
            r == (if old(self)._has@[8] {
                Some(old(self).json_name)
            } else {
                None
            }),
            final(self)._has@ == old(self)._has@.update(8, false),
            old(self)._has@[8] ==> final(self).json_name@ == Seq::<char>::empty(),
            !old(self)._has@[8] ==> final(self).json_name == old(self).json_name,
            *final(self) == (FieldDescriptorProto { json_name: final(self).json_name, _has: final(self)._has, ..*old(self) }),
    {
        let val = if self._has.json_name() {
            let mut v: String = String::new();
            std::mem::swap(&mut self.json_name, &mut v);
            Some(v)
        } else {
            None
        };
        self._has.clear_json_name();
        val
    }

    ///Builder method that sets the value of `json_name`. Useful for initializing the message.
    #[inline]
    pub fn init_json_name(self, value: String) -> (r: Self)
        ensures
            r._has@ == self._has@.update(8, true),
            r == (FieldDescriptorProto { json_name: value, _has: r._has, ..self }),
    {
        let mut s = self;
        s.set_json_name(value);
        s
    }

    ///Return a reference to `options` as an `Option`
    #[inline]
    pub fn options(&self) -> (r: Option<&pb::FieldOptions_::FieldOptions>)
        ensures
            r == (if self._has@[9] {
                Some(&self.options)
            } else {
                None
            }),
    {
        if self._has.options() {
            Some(&self.options)
        } else {
            None
        }
    }

    ///Return a mutable reference to `options` as an `Option`
    #[inline]
    pub fn mut_options(&mut self) -> (r: Option<&mut pb::FieldOptions_::FieldOptions>)
        ensures
            old(self)._has@[9] ==> r is Some && *r->0 == old(self).options && final(self).options
                == *final(r->0) && *final(self) == (FieldDescriptorProto { options: final(self).options, ..*old(self) }),
            !old(self)._has@[9] ==> r is None && *final(self) == *old(self),
    {
        if self._has.options() {
            Some(&mut self.options)
        } else {
            None
        }
    }

    ///Set the value and presence of `options`
    #[inline]
    pub fn set_options(&mut self, value: pb::FieldOptions_::FieldOptions) -> (r: &mut Self)
        ensures
            r._has@ == old(self)._has@.update(9, true),
            *r == (FieldDescriptorProto { options: value, _has: r._has, ..*old(self) }),
            *final(self) == *final(r),
    {
        self._has.set_options();
        self.options = value;
        self
    }

    ///Clear the presence of `options`
    #[inline]
    pub fn clear_options(&mut self) -> (r: &mut Self)
        ensures
            r._has@ == old(self)._has@.update(9, false),
            *r == (FieldDescriptorProto { _has: r._has, ..*old(self) }),
            *final(self) == *final(r),
    {
        self._has.clear_options();
        self
    }

    ///Take the value of `options` and clear its presence
    #[inline]
    pub fn take_options(&mut self) -> (r: Option<pb::FieldOptions_::FieldOptions>)
        ensures
            r == (if old(self)._has@[9] {
                Some(old(self).options)
            } else {
                None
            }),
            final(self)._has@ == old(self)._has@.update(9, false),
            old(self)._has@[9] ==> final(self).options@ == pb::FieldOptions_::FieldOptionsModel::empty(),
            !old(self)._has@[9] ==> final(self).options == old(self).options,
            *final(self) == (FieldDescriptorProto { options: final(self).options, _has: final(self)._has, ..*old(self) }),
    {
        let val = if self._has.options() {
            let mut v: pb::FieldOptions_::FieldOptions = pb::FieldOptions_::FieldOptions::default();
            std::mem::swap(&mut self.options, &mut v);
            Some(v)
        } else {
            None
        };
        self._has.clear_options();
        val
    }

    ///Builder method that sets the value of `options`. Useful for initializing the message.
    #[inline]
    pub fn init_options(self, value: pb::FieldOptions_::FieldOptions) -> (r: Self)
        ensures
            r._has@ == self._has@.update(9, true),
            r == (FieldDescriptorProto { options: value, _has: r._has, ..self }),
    {
        let mut s = self;
        s.set_options(value);
        s
    }

    ///Return a reference to `proto3_optional` as an `Option`
    #[inline]
    pub fn proto3_optional(&self) -> (r: Option<&bool>)
        ensures
            r == (if self._has@[10] {
                Some(&self.proto3_optional)
            } else {
                None
            }),
    {
        if self._has.proto3_optional() {
            Some(&self.proto3_optional)
        } else {
            None
        }
    }

    ///Return a mutable reference to `proto3_optional` as an `Option`
    #[inline]
    pub fn mut_proto3_optional(&mut self) -> (r: Option<&mut bool>)
        ensures
            old(self)._has@[10] ==> r is Some && *r->0 == old(self).proto3_optional && final(self).proto3_optional
                == *final(r->0) && *final(self) == (FieldDescriptorProto { proto3_optional: final(self).proto3_optional, ..*old(self) }),
            !old(self)._has@[10] ==> r is None && *final(self) == *old(self),
    {
        if self._has.proto3_optional() {
            Some(&mut self.proto3_optional)
        } else {
            None
        }
    }

    ///Set the value and presence of `proto3_optional`
    #[inline]
    pub fn set_proto3_optional(&mut self, value: bool) -> (r: &mut Self)
        ensures
            r._has@ == old(self)._has@.update(10, true),
            *r == (FieldDescriptorProto { proto3_optional: value, _has: r._has, ..*old(self) }),
            *final(self) == *final(r),
    {
        self._has.set_proto3_optional();
        self.proto3_optional = value;
        self
    }

    ///Clear the presence of `proto3_optional`
    #[inline]
    pub fn clear_proto3_optional(&mut self) -> (r: &mut Self)
        ensures
            r._has@ == old(self)._has@.update(10, false),
            *r == (FieldDescriptorProto { _has: r._has, ..*old(self) }),
            *final(self) == *final(r),
    {
        self._has.clear_proto3_optional();
        self
    }

    ///Take the value of `proto3_optional` and clear its presence
    #[inline]
    pub fn take_proto3_optional(&mut self) -> (r: Option<bool>)
        ensures
            r == (if old(self)._has@[10] {
                Some(old(self).proto3_optional)
            } else {
                None
            }),
            final(self)._has@ == old(self)._has@.update(10, false),
            old(self)._has@[10] ==> !final(self).proto3_optional,
            !old(self)._has@[10] ==> final(self).proto3_optional == old(self).proto3_optional,
            *final(self) == (FieldDescriptorProto { proto3_optional: final(self).proto3_optional, _has: final(self)._has, ..*old(self) }),
    {
        let val = if self._has.proto3_optional() {
            let mut v: bool = false;
            std::mem::swap(&mut self.proto3_optional, &mut v);
            Some(v)
        } else {
            None
        };
        self._has.clear_proto3_optional();
        val
    }

    ///Builder method that sets the value of `proto3_optional`. Useful for initializing the message.
    #[inline]
    pub fn init_proto3_optional(self, value: bool) -> (r: Self)
        ensures
            r._has@ == self._has@.update(10, true),
            r == (FieldDescriptorProto { proto3_optional: value, _has: r._has, ..self }),
    {
        let mut s = self;
        s.set_proto3_optional(value);
        s
    }

    /// Merges the value of the field numbered `num`, with wire type `wt`, that starts at
    /// `pos` in `buf` into the message, and gives the position just past the value.
    pub fn merge_field(&mut self, num: u32, wt: u32, buf: &[u8], pos: usize) -> (r: Result<usize, DecodeError>)
        requires
            pos <= buf.len(),
        ensures
            match old(self)@.merge_field(num, wt, buf@.subrange(pos as int, buf.len() as int)) {
                Ok((m, k)) => r matches Ok(next) && next == pos + k && final(self)@ == m,
                Err(e) => r == Err::<usize, DecodeError>(e),
            },
            r matches Ok(next) ==> next <= buf.len(),
            r is Err ==> final(self)@ == old(self)@.merge_field_partial(num, wt, buf@.subrange(pos as int, buf.len() as int)),
    {
        proof {
            reveal(FieldDescriptorProtoModel::merge_field);
        }
        match num {
            1 => self.merge_name_field(wt, buf, pos),
            3 => self.merge_number_field(wt, buf, pos),
            4 => self.merge_label_field(wt, buf, pos),
            5 => self.merge_type_field(wt, buf, pos),
            6 => self.merge_type_name_field(wt, buf, pos),
            2 => self.merge_extendee_field(wt, buf, pos),
            7 => self.merge_default_value_field(wt, buf, pos),
            9 => self.merge_oneof_index_field(wt, buf, pos),
            10 => self.merge_json_name_field(wt, buf, pos),
            8 => self.merge_options_field(wt, buf, pos),
            17 => self.merge_proto3_optional_field(wt, buf, pos),
            _ => skip_value(buf, pos, buf.len(), wt),
        }
    }

    /// Merges the value of a field numbered 1, starting at `pos` in `buf`, into `name`.
    fn merge_name_field(&mut self, wt: u32, buf: &[u8], pos: usize) -> (r: Result<usize, DecodeError>)
        requires
            pos <= buf.len(),
        ensures
            match old(self)@.merge_field(1, wt, buf@.subrange(pos as int, buf.len() as int)) {
                Ok((m, k)) => r matches Ok(next) && next == pos + k && final(self)@ == m,
                Err(e) => r == Err::<usize, DecodeError>(e),
            },
            r matches Ok(next) ==> next <= buf.len(),
            r is Err ==> final(self)@ == old(self)@.merge_field_partial(1, wt, buf@.subrange(pos as int, buf.len() as int)),
    {
        proof {
            reveal(FieldDescriptorProtoModel::merge_field);
        }
        let ghost m0 = self@;
        let end = buf.len();
        match read_len(buf, pos, end) {
            Ok((a, b)) => match read_string(buf, a, b) {
                Ok(st) => {
                    let ghost t = st@;
                    self.name = st;
                    self._has.set_name();
                    proof {
                        assert(self@ =~= (FieldDescriptorProtoModel { name: t, _has: m0._has.update(0, true), ..m0 }));
                    }
                    Ok(b)
                },
                Err(e) => Err(e),
            },
            Err(e) => Err(e),
        }
    }

    /// Merges the value of a field numbered 3, starting at `pos` in `buf`, into `number`.
    fn merge_number_field(&mut self, wt: u32, buf: &[u8], pos: usize) -> (r: Result<usize, DecodeError>)
        requires
            pos <= buf.len(),
        ensures
            match old(self)@.merge_field(3, wt, buf@.subrange(pos as int, buf.len() as int)) {
                Ok((m, k)) => r matches Ok(next) && next == pos + k && final(self)@ == m,
                Err(e) => r == Err::<usize, DecodeError>(e),
            },
            r matches Ok(next) ==> next <= buf.len(),
            r is Err ==> final(self)@ == old(self)@.merge_field_partial(3, wt, buf@.subrange(pos as int, buf.len() as int)),
    {
        proof {
            reveal(FieldDescriptorProtoModel::merge_field);
        }
        let ghost m0 = self@;
        let end = buf.len();
        match read_varint(buf, pos, end) {
            Ok((v, next)) => {
                self.number = to_i32(v);
                self._has.set_number();
                proof {
                    assert(self@ =~= (FieldDescriptorProtoModel { number: varint_as_i32(v), _has: m0._has.update(1, true), ..m0 }));
                }
                Ok(next)
            },
            Err(e) => Err(e),
        }
    }

    /// Merges the value of a field numbered 4, starting at `pos` in `buf`, into `label`.
    fn merge_label_field(&mut self, wt: u32, buf: &[u8], pos: usize) -> (r: Result<usize, DecodeError>)
        requires
            pos <= buf.len(),
        ensures
            match old(self)@.merge_field(4, wt, buf@.subrange(pos as int, buf.len() as int)) {
                Ok((m, k)) => r matches Ok(next) && next == pos + k && final(self)@ == m,
                Err(e) => r == Err::<usize, DecodeError>(e),
            },
            r matches Ok(next) ==> next <= buf.len(),
            r is Err ==> final(self)@ == old(self)@.merge_field_partial(4, wt, buf@.subrange(pos as int, buf.len() as int)),
    {
        proof {
            reveal(FieldDescriptorProtoModel::merge_field);
        }
        let ghost m0 = self@;
        let end = buf.len();
        match read_varint(buf, pos, end) {
            Ok((v, next)) => {
                self.label = pb::FieldDescriptorProto_::Label(to_i32(v));
                self._has.set_label();
                proof {
                    assert(self@ =~= (FieldDescriptorProtoModel { label: pb::FieldDescriptorProto_::Label(varint_as_i32(v)), _has: m0._has.update(2, true), ..m0 }));
                }
                Ok(next)
            },
            Err(e) => Err(e),
        }
    }

    /// Merges the value of a field numbered 5, starting at `pos` in `buf`, into `type`.
    fn merge_type_field(&mut self, wt: u32, buf: &[u8], pos: usize) -> (r: Result<usize, DecodeError>)
        requires
            pos <= buf.len(),
        ensures
            match old(self)@.merge_field(5, wt, buf@.subrange(pos as int, buf.len() as int)) {
                Ok((m, k)) => r matches Ok(next) && next == pos + k && final(self)@ == m,
                Err(e) => r == Err::<usize, DecodeError>(e),
            },
            r matches Ok(next) ==> next <= buf.len(),
            r is Err ==> final(self)@ == old(self)@.merge_field_partial(5, wt, buf@.subrange(pos as int, buf.len() as int)),
    {
        proof {
            reveal(FieldDescriptorProtoModel::merge_field);
        }
        let ghost m0 = self@;
        let end = buf.len();
        match read_varint(buf, pos, end) {
            Ok((v, next)) => {
                self.type_ = pb::FieldDescriptorProto_::Type(to_i32(v));
                self._has.set_type();
                proof {
                    assert(self@ =~= (FieldDescriptorProtoModel { type_: pb::FieldDescriptorProto_::Type(varint_as_i32(v)), _has: m0._has.update(3, true), ..m0 }));
                }
                Ok(next)
            },
            Err(e) => Err(e),
        }
    }

    /// Merges the value of a field numbered 6, starting at `pos` in `buf`, into `type_name`.
    fn merge_type_name_field(&mut self, wt: u32, buf: &[u8], pos: usize) -> (r: Result<usize, DecodeError>)
        requires
            pos <= buf.len(),
        ensures
            match old(self)@.merge_field(6, wt, buf@.subrange(pos as int, buf.len() as int)) {
                Ok((m, k)) => r matches Ok(next) && next == pos + k && final(self)@ == m,
                Err(e) => r == Err::<usize, DecodeError>(e),
            },
            r matches Ok(next) ==> next <= buf.len(),
            r is Err ==> final(self)@ == old(self)@.merge_field_partial(6, wt, buf@.subrange(pos as int, buf.len() as int)),
    {
        proof {
            reveal(FieldDescriptorProtoModel::merge_field);
        }
        let ghost m0 = self@;
        let end = buf.len();
        match read_len(buf, pos, end) {
            Ok((a, b)) => match read_string(buf, a, b) {
                Ok(st) => {
                    let ghost t = st@;
                    self.type_name_ = st;
                    self._has.set_type_name();
                    proof {
                        assert(self@ =~= (FieldDescriptorProtoModel { type_name_: t, _has: m0._has.update(4, true), ..m0 }));
                    }
                    Ok(b)
                },
                Err(e) => Err(e),
            },
            Err(e) => Err(e),
        }
    }

    /// Merges the value of a field numbered 2, starting at `pos` in `buf`, into `extendee`.
    fn merge_extendee_field(&mut self, wt: u32, buf: &[u8], pos: usize) -> (r: Result<usize, DecodeError>)
        requires
            pos <= buf.len(),
        ensures
            match old(self)@.merge_field(2, wt, buf@.subrange(pos as int, buf.len() as int)) {
                Ok((m, k)) => r matches Ok(next) && next == pos + k && final(self)@ == m,
                Err(e) => r == Err::<usize, DecodeError>(e),
            },
            r matches Ok(next) ==> next <= buf.len(),
            r is Err ==> final(self)@ == old(self)@.merge_field_partial(2, wt, buf@.subrange(pos as int, buf.len() as int)),
    {
        proof {
            reveal(FieldDescriptorProtoModel::merge_field);
        }
        let ghost m0 = self@;
        let end = buf.len();
        match read_len(buf, pos, end) {
            Ok((a, b)) => match read_string(buf, a, b) {
                Ok(st) => {
                    let ghost t = st@;
                    self.extendee = st;
                    self._has.set_extendee();
                    proof {
                        assert(self@ =~= (FieldDescriptorProtoModel { extendee: t, _has: m0._has.update(5, true), ..m0 }));
                    }
                    Ok(b)
                },
                Err(e) => Err(e),
            },
            Err(e) => Err(e),
        }
    }

    /// Merges the value of a field numbered 7, starting at `pos` in `buf`, into `default_value`.
    fn merge_default_value_field(&mut self, wt: u32, buf: &[u8], pos: usize) -> (r: Result<usize, DecodeError>)
        requires
            pos <= buf.len(),
        ensures
            match old(self)@.merge_field(7, wt, buf@.subrange(pos as int, buf.len() as int)) {
                Ok((m, k)) => r matches Ok(next) && next == pos + k && final(self)@ == m,
                Err(e) => r == Err::<usize, DecodeError>(e),
            },
            r matches Ok(next) ==> next <= buf.len(),
            r is Err ==> final(self)@ == old(self)@.merge_field_partial(7, wt, buf@.subrange(pos as int, buf.len() as int)),
    {
        proof {
            reveal(FieldDescriptorProtoModel::merge_field);
        }
        let ghost m0 = self@;
        let end = buf.len();
        match read_len(buf, pos, end) {
            Ok((a, b)) => match read_string(buf, a, b) {
                Ok(st) => {
                    let ghost t = st@;
                    self.default_value = st;
                    self._has.set_default_value();
                    proof {
                        assert(self@ =~= (FieldDescriptorProtoModel { default_value: t, _has: m0._has.update(6, true), ..m0 }));
                    }
                    Ok(b)
                },
                Err(e) => Err(e),
            },
            Err(e) => Err(e),
        }
    }

    /// Merges the value of a field numbered 9, starting at `pos` in `buf`, into `oneof_index`.
    fn merge_oneof_index_field(&mut self, wt: u32, buf: &[u8], pos: usize) -> (r: Result<usize, DecodeError>)
        requires
            pos <= buf.len(),
        ensures
            match old(self)@.merge_field(9, wt, buf@.subrange(pos as int, buf.len() as int)) {
                Ok((m, k)) => r matches Ok(next) && next == pos + k && final(self)@ == m,
                Err(e) => r == Err::<usize, DecodeError>(e),
            },
            r matches Ok(next) ==> next <= buf.len(),
            r is Err ==> final(self)@ == old(self)@.merge_field_partial(9, wt, buf@.subrange(pos as int, buf.len() as int)),
    {
        proof {
            reveal(FieldDescriptorProtoModel::merge_field);
        }
        let ghost m0 = self@;
        let end = buf.len();
        match read_varint(buf, pos, end) {
            Ok((v, next)) => {
                self.oneof_index = to_i32(v);
                self._has.set_oneof_index();
                proof {
                    assert(self@ =~= (FieldDescriptorProtoModel { oneof_index: varint_as_i32(v), _has: m0._has.update(7, true), ..m0 }));
                }
                Ok(next)
            },
            Err(e) => Err(e),
        }
    }

    /// Merges the value of a field numbered 10, starting at `pos` in `buf`, into `json_name`.
    fn merge_json_name_field(&mut self, wt: u32, buf: &[u8], pos: usize) -> (r: Result<usize, DecodeError>)
        requires
            pos <= buf.len(),
        ensures
            match old(self)@.merge_field(10, wt, buf@.subrange(pos as int, buf.len() as int)) {
                Ok((m, k)) => r matches Ok(next) && next == pos + k && final(self)@ == m,
                Err(e) => r == Err::<usize, DecodeError>(e),
            },
            r matches Ok(next) ==> next <= buf.len(),
            r is Err ==> final(self)@ == old(self)@.merge_field_partial(10, wt, buf@.subrange(pos as int, buf.len() as int)),
    {
        proof {
            reveal(FieldDescriptorProtoModel::merge_field);
        }
        let ghost m0 = self@;
        let end = buf.len();
        match read_len(buf, pos, end) {
            Ok((a, b)) => match read_string(buf, a, b) {
                Ok(st) => {
                    let ghost t = st@;
                    self.json_name = st;
                    self._has.set_json_name();
                    proof {
                        assert(self@ =~= (FieldDescriptorProtoModel { json_name: t, _has: m0._has.update(8, true), ..m0 }));
                    }
                    Ok(b)
                },
                Err(e) => Err(e),
            },
            Err(e) => Err(e),
        }
    }

    /// Merges the value of a field numbered 8, starting at `pos` in `buf`, into `options`.
    fn merge_options_field(&mut self, wt: u32, buf: &[u8], pos: usize) -> (r: Result<usize, DecodeError>)
        requires
            pos <= buf.len(),
        ensures
            match old(self)@.merge_field(8, wt, buf@.subrange(pos as int, buf.len() as int)) {
                Ok((m, k)) => r matches Ok(next) && next == pos + k && final(self)@ == m,
                Err(e) => r == Err::<usize, DecodeError>(e),
            },
            r matches Ok(next) ==> next <= buf.len(),
            r is Err ==> final(self)@ == old(self)@.merge_field_partial(8, wt, buf@.subrange(pos as int, buf.len() as int)),
    {
        proof {
            reveal(FieldDescriptorProtoModel::merge_field);
        }
        let ghost m0 = self@;
        let end = buf.len();
        match read_varint(buf, pos, end) {
            Ok((l, q)) => {
                proof {
                    assert(buf@.subrange(pos as int, end as int).subrange((q - pos) as int, (end - pos) as int) =~= buf@.subrange(q as int, end as int));
                }
                match self.options.decode(buf, q, l) {
                    Ok(next) => {
                        self._has.set_options();
                        proof {
                            assert(self@ =~= (FieldDescriptorProtoModel { options: self.options@, _has: m0._has.update(9, true), ..m0 }));
                        }
                        Ok(next)
                    },
                    Err(e) => {
                        proof {
                            assert(self@ =~= (FieldDescriptorProtoModel { options: self.options@, ..m0 }));
                        }
                        Err(e)
                    },
                }
            },
            Err(e) => Err(e),
        }
    }

    /// Merges the value of a field numbered 17, starting at `pos` in `buf`, into `proto3_optional`.
    fn merge_proto3_optional_field(&mut self, wt: u32, buf: &[u8], pos: usize) -> (r: Result<usize, DecodeError>)
        requires
            pos <= buf.len(),
        ensures
            match old(self)@.merge_field(17, wt, buf@.subrange(pos as int, buf.len() as int)) {
                Ok((m, k)) => r matches Ok(next) && next == pos + k && final(self)@ == m,
                Err(e) => r == Err::<usize, DecodeError>(e),
            },
            r matches Ok(next) ==> next <= buf.len(),
            r is Err ==> final(self)@ == old(self)@.merge_field_partial(17, wt, buf@.subrange(pos as int, buf.len() as int)),
    {
        proof {
            reveal(FieldDescriptorProtoModel::merge_field);
        }
        let ghost m0 = self@;
        let end = buf.len();
        match read_varint(buf, pos, end) {
            Ok((v, next)) => {
                self.proto3_optional = v != 0;
                self._has.set_proto3_optional();
                proof {
                    assert(self@ =~= (FieldDescriptorProtoModel { proto3_optional: v != 0, _has: m0._has.update(10, true), ..m0 }));
                }
                Ok(next)
            },
            Err(e) => Err(e),
        }
    }

    /// Reads fields from `buf`, from `start` on, into the message while fewer than `len`
    /// bytes have been read, and gives the position just past the last field read.
    #[verifier::rlimit(40)]
    pub fn decode(&mut self, buf: &[u8], start: usize, len: u64) -> (r: Result<usize, DecodeError>)
        requires
            start <= buf.len(),
        ensures
            match old(self)@.decode_stream(buf@.subrange(start as int, buf.len() as int), len as int) {
                Ok((m, c)) => r matches Ok(next) && next == start + c && final(self)@ == m,
                Err(e) => r == Err::<usize, DecodeError>(e),
            },
            r matches Ok(next) ==> next <= buf.len(),
            r is Err ==> final(self)@ == old(self)@.until_error_stream(
                buf@.subrange(start as int, buf.len() as int),
                len as int,
            ),
    {
        let mut pos = start;
        while ((pos - start) as u64) < len
            invariant
                start <= pos <= buf.len(),
                old(self)@.decode_stream(buf@.subrange(start as int, buf.len() as int), len as int)
                    == shift_consumed(
                    self@.decode_stream(buf@.subrange(pos as int, buf.len() as int), len - (pos - start)),
                    (pos - start) as nat,
                ),
                old(self)@.until_error_stream(buf@.subrange(start as int, buf.len() as int), len as int)
                    == self@.until_error_stream(buf@.subrange(pos as int, buf.len() as int), len - (pos - start)),
            decreases buf.len() - pos,
        {
            let ghost s = buf@.subrange(pos as int, buf.len() as int);
            let (num, wt, p) = match read_tag(buf, pos, buf.len()) {
                Ok(x) => x,
                Err(e) => return Err(e),
            };
            if num == 0 {
                return Err(DecodeError::ZeroField);
            }
            proof {
                lemma_tag_bounds(s);
                assert(s.subrange((p - pos) as int, s.len() as int) =~= buf@.subrange(p as int, buf.len() as int));
            }
            let next = match self.merge_field(num, wt, buf, p) {
                Ok(x) => x,
                Err(e) => return Err(e),
            };
            proof {
                let rest = buf@.subrange(p as int, buf.len() as int);
                assert(rest.subrange((next - p) as int, rest.len() as int) =~= buf@.subrange(
                    next as int,
                    buf.len() as int,
                ));
            }
            pos = next;
        }
        Ok(pos)
    }

    /// Merges the fields encoded in `bytes` into the message.
    pub fn decode_from_bytes(&mut self, bytes: &[u8]) -> (r: Result<(), DecodeError>)
        ensures
            match old(self)@.merge_from(bytes@) {
                Ok(m) => r is Ok && final(self)@ == m,
                Err(e) => r == Err::<(), DecodeError>(e),
            },
            r is Err ==> final(self)@ == old(self)@.merge_until_error(bytes@),
    {
        assert(bytes@.subrange(0, bytes@.len() as int) =~= bytes@);
        match self.decode(bytes, 0, bytes.len() as u64) {
            Ok(_) => Ok(()),
            Err(e) => Err(e),
        }
    }
}

} // verus!
