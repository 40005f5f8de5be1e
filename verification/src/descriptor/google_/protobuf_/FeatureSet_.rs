//! `FeatureSet`, with its nested types and its presence bits.
use vstd::prelude::*;
use vstd::utf8::{decode_utf8, valid_utf8};
use crate::bits::{flags_of, lemma_flags_clear, lemma_flags_get, lemma_flags_set, lemma_flags_zero};
use crate::descriptor::google_::protobuf_ as pb;
use crate::wire::{
    copy_bytes, lemma_len_bounds, lemma_varint_bounds, lemma_tag_bounds, lemma_values_prefix, parse_fixed64, parse_len, parse_packed_i32,
    parse_string, parse_tag, parse_varint, read_fixed64, read_len, read_packed_i32, read_string,
    read_tag, read_varint, shift_consumed, skip_len, skip_value, to_i32, to_i64, varint_as_i32,
    varint_as_i64, DecodeError, WIRE_TYPE_LEN,
};


verus! {

#[derive(Debug, Clone, Copy, PartialEq, Eq, Structural, Hash)]
pub struct FieldPresence(pub i32);

impl FieldPresence {
    /// The value `0`.
    pub fn Unknown() -> (r: Self)
        ensures
            r == FieldPresence(0),
    {
        Self(0)
    }

    /// The value `1`.
    pub fn Explicit() -> (r: Self)
        ensures
            r == FieldPresence(1),
    {
        Self(1)
    }

    /// The value `2`.
    pub fn Implicit() -> (r: Self)
        ensures
            r == FieldPresence(2),
    {
        Self(2)
    }

    /// The value `3`.
    pub fn LegacyRequired() -> (r: Self)
        ensures
            r == FieldPresence(3),
    {
        Self(3)
    }
}

impl Default for FieldPresence {
    fn default() -> (r: Self)
        ensures
            r == FieldPresence(0),
    {
        Self(0)
    }
}

impl From<i32> for FieldPresence {
    fn from(val: i32) -> (r: Self) {
        Self(val)
    }
}

impl vstd::std_specs::convert::FromSpecImpl<i32> for FieldPresence {
    open spec fn obeys_from_spec() -> bool {
        true
    }

    open spec fn from_spec(v: i32) -> Self {
        FieldPresence(v)
    }
}

#[derive(Debug, Clone, Copy, PartialEq, Eq, Structural, Hash)]
pub struct EnumType(pub i32);

impl EnumType {
    /// The value `0`.
    pub fn Unknown() -> (r: Self)
        ensures
            r == EnumType(0),
    {
        Self(0)
    }

    /// The value `1`.
    pub fn Open() -> (r: Self)
        ensures
            r == EnumType(1),
    {
        Self(1)
    }

    /// The value `2`.
    pub fn Closed() -> (r: Self)
        ensures
            r == EnumType(2),
    {
        Self(2)
    }
}

impl Default for EnumType {
    fn default() -> (r: Self)
        ensures
            r == EnumType(0),
    {
        Self(0)
    }
}

impl From<i32> for EnumType {
    fn from(val: i32) -> (r: Self) {
        Self(val)
    }
}

impl vstd::std_specs::convert::FromSpecImpl<i32> for EnumType {
    open spec fn obeys_from_spec() -> bool {
        true
    }

    open spec fn from_spec(v: i32) -> Self {
        EnumType(v)
    }
}

#[derive(Debug, Clone, Copy, PartialEq, Eq, Structural, Hash)]
pub struct RepeatedFieldEncoding(pub i32);

impl RepeatedFieldEncoding {
    /// The value `0`.
    pub fn Unknown() -> (r: Self)
        ensures
            r == RepeatedFieldEncoding(0),
    {
        Self(0)
    }

    /// The value `1`.
    pub fn Packed() -> (r: Self)
        ensures
            r == RepeatedFieldEncoding(1),
    {
        Self(1)
    }

    /// The value `2`.
    pub fn Expanded() -> (r: Self)
        ensures
            r == RepeatedFieldEncoding(2),
    {
        Self(2)
    }
}

impl Default for RepeatedFieldEncoding {
    fn default() -> (r: Self)
        ensures
            r == RepeatedFieldEncoding(0),
    {
        Self(0)
    }
}

impl From<i32> for RepeatedFieldEncoding {
    fn from(val: i32) -> (r: Self) {
        Self(val)
    }
}

impl vstd::std_specs::convert::FromSpecImpl<i32> for RepeatedFieldEncoding {
    open spec fn obeys_from_spec() -> bool {
        true
    }

    open spec fn from_spec(v: i32) -> Self {
        RepeatedFieldEncoding(v)
    }
}

#[derive(Debug, Clone, Copy, PartialEq, Eq, Structural, Hash)]
pub struct Utf8Validation(pub i32);

impl Utf8Validation {
    /// The value `0`.
    pub fn Unknown() -> (r: Self)
        ensures
            r == Utf8Validation(0),
    {
        Self(0)
    }

    /// The value `2`.
    pub fn Verify() -> (r: Self)
        ensures
            r == Utf8Validation(2),
    {
        Self(2)
    }

    /// The value `3`.
    pub fn None_() -> (r: Self)
        ensures
            r == Utf8Validation(3),
    {
        Self(3)
    }
}

impl Default for Utf8Validation {
    fn default() -> (r: Self)
        ensures
            r == Utf8Validation(0),
    {
        Self(0)
    }
}

impl From<i32> for Utf8Validation {
    fn from(val: i32) -> (r: Self) {
        Self(val)
    }
}

impl vstd::std_specs::convert::FromSpecImpl<i32> for Utf8Validation {
    open spec fn obeys_from_spec() -> bool {
        true
    }

    open spec fn from_spec(v: i32) -> Self {
        Utf8Validation(v)
    }
}

#[derive(Debug, Clone, Copy, PartialEq, Eq, Structural, Hash)]
pub struct MessageEncoding(pub i32);

impl MessageEncoding {
    /// The value `0`.
    pub fn Unknown() -> (r: Self)
        ensures
            r == MessageEncoding(0),
    {
        Self(0)
    }

    /// The value `1`.
    pub fn LengthPrefixed() -> (r: Self)
        ensures
            r == MessageEncoding(1),
    {
        Self(1)
    }

    /// The value `2`.
    pub fn Delimited() -> (r: Self)
        ensures
            r == MessageEncoding(2),
    {
        Self(2)
    }
}

impl Default for MessageEncoding {
    fn default() -> (r: Self)
        ensures
            r == MessageEncoding(0),
    {
        Self(0)
    }
}

impl From<i32> for MessageEncoding {
    fn from(val: i32) -> (r: Self) {
        Self(val)
    }
}

impl vstd::std_specs::convert::FromSpecImpl<i32> for MessageEncoding {
    open spec fn obeys_from_spec() -> bool {
        true
    }

    open spec fn from_spec(v: i32) -> Self {
        MessageEncoding(v)
    }
}

#[derive(Debug, Clone, Copy, PartialEq, Eq, Structural, Hash)]
pub struct JsonFormat(pub i32);

impl JsonFormat {
    /// The value `0`.
    pub fn Unknown() -> (r: Self)
        ensures
            r == JsonFormat(0),
    {
        Self(0)
    }

    /// The value `1`.
    pub fn Allow() -> (r: Self)
        ensures
            r == JsonFormat(1),
    {
        Self(1)
    }

    /// The value `2`.
    pub fn LegacyBestEffort() -> (r: Self)
        ensures
            r == JsonFormat(2),
    {
        Self(2)
    }
}

impl Default for JsonFormat {
    fn default() -> (r: Self)
        ensures
            r == JsonFormat(0),
    {
        Self(0)
    }
}

impl From<i32> for JsonFormat {
    fn from(val: i32) -> (r: Self) {
        Self(val)
    }
}

impl vstd::std_specs::convert::FromSpecImpl<i32> for JsonFormat {
    open spec fn obeys_from_spec() -> bool {
        true
    }

    open spec fn from_spec(v: i32) -> Self {
        JsonFormat(v)
    }
}

/// Presence bits of the optional fields of `FeatureSet`: bit `i % 8` of byte `i / 8` is flag `i`.
#[derive(Debug, PartialEq)]
pub struct _Hazzer(pub [u8; 1]);

impl View for _Hazzer {
    type V = Seq<bool>;

    open spec fn view(&self) -> Seq<bool> {
        flags_of(self.0@)
    }
}

impl Default for _Hazzer {
    fn default() -> (r: Self)
        ensures
            r@ == Seq::new(8, |i: int| false),
    {
        let r = _Hazzer([0u8]);
        proof {
            lemma_flags_zero(r.0@);
            assert(r@ =~= Seq::new(8, |i: int| false));
        }
        r
    }
}

impl Clone for _Hazzer {
    fn clone(&self) -> (r: Self)
        ensures
            r == *self,
    {
        _Hazzer(self.0)
    }
}

impl _Hazzer {
    ///Query presence of `field_presence`
    #[inline]
    pub fn field_presence(&self) -> (r: bool)
        ensures
            r == self@[0],
    {
        proof {
            lemma_flags_get(self.0@, 0, 0);
        }
        (self.0[0] & (1u8 << 0u8)) != 0
    }

    ///Set presence of `field_presence`
    #[inline]
    pub fn set_field_presence(&mut self) -> (r: &mut Self)
        ensures
            r@ == old(self)@.update(0, true),
            *final(self) == *final(r),
    {
        let ghost bytes = self.0@;
        self.0[0] = self.0[0] | (1u8 << 0u8);
        proof {
            lemma_flags_set(bytes, self.0@, 0, 0);
        }
        self
    }

    ///Clear presence of `field_presence`
    #[inline]
    pub fn clear_field_presence(&mut self) -> (r: &mut Self)
        ensures
            r@ == old(self)@.update(0, false),
            *final(self) == *final(r),
    {
        let ghost bytes = self.0@;
        self.0[0] = self.0[0] & !(1u8 << 0u8);
        proof {
            lemma_flags_clear(bytes, self.0@, 0, 0);
        }
        self
    }

    ///Builder method that sets the presence of `field_presence`. Useful for initializing the Hazzer.
    #[inline]
    pub fn init_field_presence(self) -> (r: Self)
        ensures
            r@ == self@.update(0, true),
    {
        let mut s = self;
        s.set_field_presence();
        s
    }

    ///Query presence of `enum_type`
    #[inline]
    pub fn enum_type(&self) -> (r: bool)
        ensures
            r == self@[1],
    {
        proof {
            lemma_flags_get(self.0@, 0, 1);
        }
        (self.0[0] & (1u8 << 1u8)) != 0
    }

    ///Set presence of `enum_type`
    #[inline]
    pub fn set_enum_type(&mut self) -> (r: &mut Self)
        ensures
            r@ == old(self)@.update(1, true),
            *final(self) == *final(r),
    {
        let ghost bytes = self.0@;
        self.0[0] = self.0[0] | (1u8 << 1u8);
        proof {
            lemma_flags_set(bytes, self.0@, 0, 1);
        }
        self
    }

    ///Clear presence of `enum_type`
    #[inline]
    pub fn clear_enum_type(&mut self) -> (r: &mut Self)
        ensures
            r@ == old(self)@.update(1, false),
            *final(self) == *final(r),
    {
        let ghost bytes = self.0@;
        self.0[0] = self.0[0] & !(1u8 << 1u8);
        proof {
            lemma_flags_clear(bytes, self.0@, 0, 1);
        }
        self
    }

    ///Builder method that sets the presence of `enum_type`. Useful for initializing the Hazzer.
    #[inline]
    pub fn init_enum_type(self) -> (r: Self)
        ensures
            r@ == self@.update(1, true),
    {
        let mut s = self;
        s.set_enum_type();
        s
    }

    ///Query presence of `repeated_field_encoding`
    #[inline]
    pub fn repeated_field_encoding(&self) -> (r: bool)
        ensures
            r == self@[2],
    {
        proof {
            lemma_flags_get(self.0@, 0, 2);
        }
        (self.0[0] & (1u8 << 2u8)) != 0
    }

    ///Set presence of `repeated_field_encoding`
    #[inline]
    pub fn set_repeated_field_encoding(&mut self) -> (r: &mut Self)
        ensures
            r@ == old(self)@.update(2, true),
            *final(self) == *final(r),
    {
        let ghost bytes = self.0@;
        self.0[0] = self.0[0] | (1u8 << 2u8);
        proof {
            lemma_flags_set(bytes, self.0@, 0, 2);
        }
        self
    }

    ///Clear presence of `repeated_field_encoding`
    #[inline]
    pub fn clear_repeated_field_encoding(&mut self) -> (r: &mut Self)
        ensures
            r@ == old(self)@.update(2, false),
            *final(self) == *final(r),
    {
        let ghost bytes = self.0@;
        self.0[0] = self.0[0] & !(1u8 << 2u8);
        proof {
            lemma_flags_clear(bytes, self.0@, 0, 2);
        }
        self
    }

    ///Builder method that sets the presence of `repeated_field_encoding`. Useful for initializing the Hazzer.
    #[inline]
    pub fn init_repeated_field_encoding(self) -> (r: Self)
        ensures
            r@ == self@.update(2, true),
    {
        let mut s = self;
        s.set_repeated_field_encoding();
        s
    }

    ///Query presence of `utf8_validation`
    #[inline]
    pub fn utf8_validation(&self) -> (r: bool)
        ensures
            r == self@[3],
    {
        proof {
            lemma_flags_get(self.0@, 0, 3);
        }
        (self.0[0] & (1u8 << 3u8)) != 0
    }

    ///Set presence of `utf8_validation`
    #[inline]
    pub fn set_utf8_validation(&mut self) -> (r: &mut Self)
        ensures
            r@ == old(self)@.update(3, true),
            *final(self) == *final(r),
    {
        let ghost bytes = self.0@;
        self.0[0] = self.0[0] | (1u8 << 3u8);
        proof {
            lemma_flags_set(bytes, self.0@, 0, 3);
        }
        self
    }

    ///Clear presence of `utf8_validation`
    #[inline]
    pub fn clear_utf8_validation(&mut self) -> (r: &mut Self)
        ensures
            r@ == old(self)@.update(3, false),
            *final(self) == *final(r),
    {
        let ghost bytes = self.0@;
        self.0[0] = self.0[0] & !(1u8 << 3u8);
        proof {
            lemma_flags_clear(bytes, self.0@, 0, 3);
        }
        self
    }

    ///Builder method that sets the presence of `utf8_validation`. Useful for initializing the Hazzer.
    #[inline]
    pub fn init_utf8_validation(self) -> (r: Self)
        ensures
            r@ == self@.update(3, true),
    {
        let mut s = self;
        s.set_utf8_validation();
        s
    }

    ///Query presence of `message_encoding`
    #[inline]
    pub fn message_encoding(&self) -> (r: bool)
        ensures
            r == self@[4],
    {
        proof {
            lemma_flags_get(self.0@, 0, 4);
        }
        (self.0[0] & (1u8 << 4u8)) != 0
    }

    ///Set presence of `message_encoding`
    #[inline]
    pub fn set_message_encoding(&mut self) -> (r: &mut Self)
        ensures
            r@ == old(self)@.update(4, true),
            *final(self) == *final(r),
    {
        let ghost bytes = self.0@;
        self.0[0] = self.0[0] | (1u8 << 4u8);
        proof {
            lemma_flags_set(bytes, self.0@, 0, 4);
        }
        self
    }

    ///Clear presence of `message_encoding`
    #[inline]
    pub fn clear_message_encoding(&mut self) -> (r: &mut Self)
        ensures
            r@ == old(self)@.update(4, false),
            *final(self) == *final(r),
    {
        let ghost bytes = self.0@;
        self.0[0] = self.0[0] & !(1u8 << 4u8);
        proof {
            lemma_flags_clear(bytes, self.0@, 0, 4);
        }
        self
    }

    ///Builder method that sets the presence of `message_encoding`. Useful for initializing the Hazzer.
    #[inline]
    pub fn init_message_encoding(self) -> (r: Self)
        ensures
            r@ == self@.update(4, true),
    {
        let mut s = self;
        s.set_message_encoding();
        s
    }

    ///Query presence of `json_format`
    #[inline]
    pub fn json_format(&self) -> (r: bool)
        ensures
            r == self@[5],
    {
        proof {
            lemma_flags_get(self.0@, 0, 5);
        }
        (self.0[0] & (1u8 << 5u8)) != 0
    }

    ///Set presence of `json_format`
    #[inline]
    pub fn set_json_format(&mut self) -> (r: &mut Self)
        ensures
            r@ == old(self)@.update(5, true),
            *final(self) == *final(r),
    {
        let ghost bytes = self.0@;
        self.0[0] = self.0[0] | (1u8 << 5u8);
        proof {
            lemma_flags_set(bytes, self.0@, 0, 5);
        }
        self
    }

    ///Clear presence of `json_format`
    #[inline]
    pub fn clear_json_format(&mut self) -> (r: &mut Self)
        ensures
            r@ == old(self)@.update(5, false),
            *final(self) == *final(r),
    {
        let ghost bytes = self.0@;
        self.0[0] = self.0[0] & !(1u8 << 5u8);
        proof {
            lemma_flags_clear(bytes, self.0@, 0, 5);
        }
        self
    }

    ///Builder method that sets the presence of `json_format`. Useful for initializing the Hazzer.
    #[inline]
    pub fn init_json_format(self) -> (r: Self)
        ensures
            r@ == self@.update(5, true),
    {
        let mut s = self;
        s.set_json_format();
        s
    }
}

/// The Protobuf message `google.protobuf.FeatureSet`.
#[derive(Debug)]
pub struct FeatureSet {
    pub field_presence: pb::FeatureSet_::FieldPresence,
    pub enum_type: pb::FeatureSet_::EnumType,
    pub repeated_field_encoding: pb::FeatureSet_::RepeatedFieldEncoding,
    pub utf8_validation: pb::FeatureSet_::Utf8Validation,
    pub message_encoding: pb::FeatureSet_::MessageEncoding,
    pub json_format: pb::FeatureSet_::JsonFormat,
    pub _has: _Hazzer,
}

/// The value of a `FeatureSet` as the contracts see it.
#[verifier::ext_equal]
pub ghost struct FeatureSetModel {
    pub field_presence: pb::FeatureSet_::FieldPresence,
    pub enum_type: pb::FeatureSet_::EnumType,
    pub repeated_field_encoding: pb::FeatureSet_::RepeatedFieldEncoding,
    pub utf8_validation: pb::FeatureSet_::Utf8Validation,
    pub message_encoding: pb::FeatureSet_::MessageEncoding,
    pub json_format: pb::FeatureSet_::JsonFormat,
    pub _has: Seq<bool>,
}

impl View for FeatureSet {
    type V = FeatureSetModel;

    open spec fn view(&self) -> FeatureSetModel {
        FeatureSetModel {
            field_presence: self.field_presence,
            enum_type: self.enum_type,
            repeated_field_encoding: self.repeated_field_encoding,
            utf8_validation: self.utf8_validation,
            message_encoding: self.message_encoding,
            json_format: self.json_format,
            _has: self._has@,
        }
    }
}

impl FeatureSetModel {
    /// The value of a `FeatureSet` with no field set.
    pub open spec fn empty() -> FeatureSetModel {
        FeatureSetModel {
            field_presence: pb::FeatureSet_::FieldPresence(0),
            enum_type: pb::FeatureSet_::EnumType(0),
            repeated_field_encoding: pb::FeatureSet_::RepeatedFieldEncoding(0),
            utf8_validation: pb::FeatureSet_::Utf8Validation(0),
            message_encoding: pb::FeatureSet_::MessageEncoding(0),
            json_format: pb::FeatureSet_::JsonFormat(0),
            _has: Seq::new(8, |i: int| false),
        }
    }

    /// The message after the value of the field numbered `num`, with wire type `wt`, at the
    /// start of `s` has been merged into it, and the length of that value. A known field is
    /// read as its own type: a later value of a singular field replaces the earlier one, and
    /// a repeated field gains the values at its end. An unknown field is skipped by its wire
    /// type and leaves the message as it was.
    #[verifier::opaque]
    pub open spec fn merge_field(self, num: u32, wt: u32, s: Seq<u8>) -> Result<(FeatureSetModel, nat), DecodeError>
    {
        if num == 1 {
            match parse_varint(s) {
                Ok((v, n)) => Ok(((FeatureSetModel { field_presence: pb::FeatureSet_::FieldPresence(varint_as_i32(v)), _has: self._has.update(0, true), ..self }), n)),
                Err(e) => Err(e),
            }
        } else if num == 2 {
            match parse_varint(s) {
                Ok((v, n)) => Ok(((FeatureSetModel { enum_type: pb::FeatureSet_::EnumType(varint_as_i32(v)), _has: self._has.update(1, true), ..self }), n)),
                Err(e) => Err(e),
            }
        } else if num == 3 {
            match parse_varint(s) {
                Ok((v, n)) => Ok(((FeatureSetModel { repeated_field_encoding: pb::FeatureSet_::RepeatedFieldEncoding(varint_as_i32(v)), _has: self._has.update(2, true), ..self }), n)),
                Err(e) => Err(e),
            }
        } else if num == 4 {
            match parse_varint(s) {
                Ok((v, n)) => Ok(((FeatureSetModel { utf8_validation: pb::FeatureSet_::Utf8Validation(varint_as_i32(v)), _has: self._has.update(3, true), ..self }), n)),
                Err(e) => Err(e),
            }
        } else if num == 5 {
            match parse_varint(s) {
                Ok((v, n)) => Ok(((FeatureSetModel { message_encoding: pb::FeatureSet_::MessageEncoding(varint_as_i32(v)), _has: self._has.update(4, true), ..self }), n)),
                Err(e) => Err(e),
            }
        } else if num == 6 {
            match parse_varint(s) {
                Ok((v, n)) => Ok(((FeatureSetModel { json_format: pb::FeatureSet_::JsonFormat(varint_as_i32(v)), _has: self._has.update(5, true), ..self }), n)),
                Err(e) => Err(e),
            }
        } else {
            match skip_len(s, wt) {
                Ok(n) => Ok((self, n)),
                Err(e) => Err(e),
            }
        }
    }

    /// The message after its fields have been read from the start of `s` while fewer than
    /// `rem` bytes have been read, and how many bytes were read. Each field is read whole,
    /// so the last one may run past `rem`. A field numbered 0 is refused.
    pub open spec fn decode_stream(self, s: Seq<u8>, rem: int) -> Result<(FeatureSetModel, nat), DecodeError>
        decreases s.len(),
    {
        if rem <= 0 {
            Ok((self, 0))
        } else {
            match parse_tag(s) {
                Err(e) => Err(e),
                Ok((num, wt, n)) => if num == 0 {
                    Err(DecodeError::ZeroField)
                } else if 0 < n <= s.len() {
                    let rest = s.subrange(n as int, s.len() as int);
                    match self.merge_field(num, wt, rest) {
                        Ok((m, k)) => if k <= rest.len() {
                            shift_consumed(
                                m.decode_stream(rest.subrange(k as int, rest.len() as int), rem - (n + k)),
                                n + k,
                            )
                        } else {
                            Err(DecodeError::UnexpectedEof)
                        },
                        Err(e) => Err(e),
                    }
                } else {
                    Err(DecodeError::UnexpectedEof)
                },
            }
        }
    }

    /// The message after every field in `s` has been merged into it, in order: its fields
    /// read from `s` while fewer than `s.len()` bytes have been read.
    pub open spec fn merge_from(self, s: Seq<u8>) -> Result<FeatureSetModel, DecodeError> {
        match self.decode_stream(s, s.len() as int) {
            Ok((m, c)) => Ok(m),
            Err(e) => Err(e),
        }
    }

    /// The message after its fields have been read from the start of `s`, as in
    /// `decode_stream`, up to the first one that fails: that one leaves the message as its
    /// failed merge does, and no field after it is read.
    pub open spec fn until_error_stream(self, s: Seq<u8>, rem: int) -> FeatureSetModel
        decreases s.len(),
    {
        if rem <= 0 {
            self
        } else {
            match parse_tag(s) {
                Err(e) => self,
                Ok((num, wt, n)) => if num == 0 {
                    self
                } else if 0 < n <= s.len() {
                    let rest = s.subrange(n as int, s.len() as int);
                    match self.merge_field(num, wt, rest) {
                        Ok((m, k)) => if k <= rest.len() {
                            m.until_error_stream(rest.subrange(k as int, rest.len() as int), rem - (n + k))
                        } else {
                            m
                        },
                        Err(e) => self,
                    }
                } else {
                    self
                },
            }
        }
    }

    /// The message after the fields of `s` have been merged into it in order, up to the
    /// first one that fails, which leaves the message as its failed merge does. When none
    /// fails, this is what `merge_from` gives.
    pub open spec fn merge_until_error(self, s: Seq<u8>) -> FeatureSetModel {
        self.until_error_stream(s, s.len() as int)
    }

    /// Reading fields reads at most the whole input, and at least `rem` bytes when `rem` is
    /// positive.
    pub proof fn lemma_stream_bounds(self, s: Seq<u8>, rem: int)
        ensures
            self.decode_stream(s, rem) matches Ok((m, c)) ==> c <= s.len() && (rem > 0 ==> c >= rem) && (
            rem <= 0 ==> c == 0),
        decreases s.len(),
    {
        if rem > 0 {
            if let Ok((num, wt, n)) = parse_tag(s) {
                if num != 0 && 0 < n <= s.len() {
                    let rest = s.subrange(n as int, s.len() as int);
                    if let Ok((m, k)) = self.merge_field(num, wt, rest) {
                        if k <= rest.len() {
                            m.lemma_stream_bounds(rest.subrange(k as int, rest.len() as int), rem - (n + k));
                        }
                    }
                }
            }
        }
    }

    /// Fields that can be read from `s` read the same from `s` followed by anything.
    pub proof fn lemma_stream_prefix(self, s: Seq<u8>, b: Seq<u8>, rem: int)
        requires
            self.decode_stream(s, rem) is Ok,
        ensures
            self.decode_stream(s + b, rem) == self.decode_stream(s, rem),
        decreases s.len(),
    {
        if rem > 0 {
            lemma_values_prefix(s, b);
            let (num, wt, n) = parse_tag(s)->Ok_0;
            let rest = s.subrange(n as int, s.len() as int);
            assert((s + b).subrange(n as int, (s + b).len() as int) =~= rest + b);
            self.lemma_merge_field_prefix(num, wt, rest, b);
            let (m, k) = self.merge_field(num, wt, rest)->Ok_0;
            let t = rest.subrange(k as int, rest.len() as int);
            assert((rest + b).subrange(k as int, (rest + b).len() as int) =~= t + b);
            m.lemma_stream_prefix(t, b, rem - (n + k));
        }
    }

    proof fn lemma_merge_field_prefix(self, num: u32, wt: u32, s: Seq<u8>, b: Seq<u8>)
        requires
            self.merge_field(num, wt, s) is Ok,
        ensures
            self.merge_field(num, wt, s + b) == self.merge_field(num, wt, s),
        
    {
        reveal(FeatureSetModel::merge_field);
        lemma_values_prefix(s, b);
        lemma_len_bounds(s);

    }

    /// Reading exactly `r1` bytes of fields, then `r2` more, is reading while fewer than
    /// `r1 + r2` bytes have been read.
    proof fn lemma_stream_split(self, s: Seq<u8>, r1: int, r2: int)
        requires
            r1 >= 0,
            r2 >= 0,
            self.decode_stream(s, r1) matches Ok((m, c)) && c == r1,
        ensures
            self.decode_stream(s, r1 + r2) == shift_consumed(
                self.decode_stream(s, r1)->Ok_0.0.decode_stream(s.subrange(r1, s.len() as int), r2),
                r1 as nat,
            ),
        decreases s.len(),
    {
        if r1 > 0 {
            let (num, wt, n) = parse_tag(s)->Ok_0;
            let rest = s.subrange(n as int, s.len() as int);
            let (m, k) = self.merge_field(num, wt, rest)->Ok_0;
            let t = rest.subrange(k as int, rest.len() as int);
            m.lemma_stream_bounds(t, r1 - (n + k));
            assert(t.subrange(r1 - (n + k), t.len() as int) =~= s.subrange(r1, s.len() as int));
            m.lemma_stream_split(t, r1 - (n + k), r2);
        } else {
            assert(s.subrange(0, s.len() as int) =~= s);
        }
    }

    /// Decoding is merging: when the fields of `a` merge into the message without error,
    /// merging `a` followed by `b` gives what merging `b` into that result gives.
    pub proof fn lemma_merge_from_concat(self, a: Seq<u8>, b: Seq<u8>)
        requires
            self.merge_from(a) is Ok,
        ensures
            self.merge_from(a + b) == self.merge_from(a)->Ok_0.merge_from(b),
    {
        self.lemma_stream_bounds(a, a.len() as int);
        self.lemma_stream_prefix(a, b, a.len() as int);
        assert((a + b).len() == a.len() + b.len());
        self.lemma_stream_split(a + b, a.len() as int, b.len() as int);
        assert((a + b).subrange(a.len() as int, (a + b).len() as int) =~= b);
    }

    proof fn lemma_single_field(self, s: Seq<u8>, num: u32, wt: u32, n: nat)
        requires
            parse_tag(s) == Ok::<(u32, u32, nat), DecodeError>((num, wt, n)),
            num != 0,
            self.merge_field(num, wt, s.subrange(n as int, s.len() as int)) matches Ok((m, k)) && n + k == s.len(),
        ensures
            self.merge_from(s) == Ok::<FeatureSetModel, DecodeError>(self.merge_field(num, wt, s.subrange(n as int, s.len() as int))->Ok_0.0),
    {
        lemma_tag_bounds(s);
        let rest = s.subrange(n as int, s.len() as int);
        let (m, k) = self.merge_field(num, wt, rest)->Ok_0;
        assert(rest.subrange(k as int, rest.len() as int) =~= Seq::<u8>::empty());
        assert(m.decode_stream(rest.subrange(k as int, rest.len() as int), s.len() - (n + k)) == Ok::<
            (FeatureSetModel, nat),
            DecodeError,
        >((m, 0)));
    }

    /// A field numbered 1 holds `field_presence`: decoding a buffer that holds just such a field,
    /// whatever its wire type, sets `field_presence` to the low 32 bits of the varint, marks it present,
    /// and leaves every other field as it was.
    pub proof fn lemma_decode_field_presence(self, s: Seq<u8>, wt: u32, n: nat, v: u64, k: nat)
        requires
            parse_tag(s) == Ok::<(u32, u32, nat), DecodeError>((1, wt, n)),
            parse_varint(s.subrange(n as int, s.len() as int)) == Ok::<(u64, nat), DecodeError>((v, k)),
            n + k == s.len(),
        ensures
            self.merge_from(s) == Ok::<FeatureSetModel, DecodeError>((FeatureSetModel { field_presence: pb::FeatureSet_::FieldPresence(varint_as_i32(v)), _has: self._has.update(0, true), ..self })),
    {
        reveal(FeatureSetModel::merge_field);
        self.lemma_single_field(s, 1, wt, n);
    }

    /// A field numbered 2 holds `enum_type`: decoding a buffer that holds just such a field,
    /// whatever its wire type, sets `enum_type` to the low 32 bits of the varint, marks it present,
    /// and leaves every other field as it was.
    pub proof fn lemma_decode_enum_type(self, s: Seq<u8>, wt: u32, n: nat, v: u64, k: nat)
        requires
            parse_tag(s) == Ok::<(u32, u32, nat), DecodeError>((2, wt, n)),
            parse_varint(s.subrange(n as int, s.len() as int)) == Ok::<(u64, nat), DecodeError>((v, k)),
            n + k == s.len(),
        ensures
            self.merge_from(s) == Ok::<FeatureSetModel, DecodeError>((FeatureSetModel { enum_type: pb::FeatureSet_::EnumType(varint_as_i32(v)), _has: self._has.update(1, true), ..self })),
    {
        reveal(FeatureSetModel::merge_field);
        self.lemma_single_field(s, 2, wt, n);
    }

    /// A field numbered 3 holds `repeated_field_encoding`: decoding a buffer that holds just such a field,
    /// whatever its wire type, sets `repeated_field_encoding` to the low 32 bits of the varint, marks it present,
    /// and leaves every other field as it was.
    pub proof fn lemma_decode_repeated_field_encoding(self, s: Seq<u8>, wt: u32, n: nat, v: u64, k: nat)
        requires
            parse_tag(s) == Ok::<(u32, u32, nat), DecodeError>((3, wt, n)),
            parse_varint(s.subrange(n as int, s.len() as int)) == Ok::<(u64, nat), DecodeError>((v, k)),
            n + k == s.len(),
        ensures
            self.merge_from(s) == Ok::<FeatureSetModel, DecodeError>((FeatureSetModel { repeated_field_encoding: pb::FeatureSet_::RepeatedFieldEncoding(varint_as_i32(v)), _has: self._has.update(2, true), ..self })),
    {
        reveal(FeatureSetModel::merge_field);
        self.lemma_single_field(s, 3, wt, n);
    }

    /// A field numbered 4 holds `utf8_validation`: decoding a buffer that holds just such a field,
    /// whatever its wire type, sets `utf8_validation` to the low 32 bits of the varint, marks it present,
    /// and leaves every other field as it was.
    pub proof fn lemma_decode_utf8_validation(self, s: Seq<u8>, wt: u32, n: nat, v: u64, k: nat)
        requires
            parse_tag(s) == Ok::<(u32, u32, nat), DecodeError>((4, wt, n)),
            parse_varint(s.subrange(n as int, s.len() as int)) == Ok::<(u64, nat), DecodeError>((v, k)),
            n + k == s.len(),
        ensures
            self.merge_from(s) == Ok::<FeatureSetModel, DecodeError>((FeatureSetModel { utf8_validation: pb::FeatureSet_::Utf8Validation(varint_as_i32(v)), _has: self._has.update(3, true), ..self })),
    {
        reveal(FeatureSetModel::merge_field);
        self.lemma_single_field(s, 4, wt, n);
    }

    /// A field numbered 5 holds `message_encoding`: decoding a buffer that holds just such a field,
    /// whatever its wire type, sets `message_encoding` to the low 32 bits of the varint, marks it present,
    /// and leaves every other field as it was.
    pub proof fn lemma_decode_message_encoding(self, s: Seq<u8>, wt: u32, n: nat, v: u64, k: nat)
        requires
            parse_tag(s) == Ok::<(u32, u32, nat), DecodeError>((5, wt, n)),
            parse_varint(s.subrange(n as int, s.len() as int)) == Ok::<(u64, nat), DecodeError>((v, k)),
            n + k == s.len(),
        ensures
            self.merge_from(s) == Ok::<FeatureSetModel, DecodeError>((FeatureSetModel { message_encoding: pb::FeatureSet_::MessageEncoding(varint_as_i32(v)), _has: self._has.update(4, true), ..self })),
    {
        reveal(FeatureSetModel::merge_field);
        self.lemma_single_field(s, 5, wt, n);
    }

    /// A field numbered 6 holds `json_format`: decoding a buffer that holds just such a field,
    /// whatever its wire type, sets `json_format` to the low 32 bits of the varint, marks it present,
    /// and leaves every other field as it was.
    pub proof fn lemma_decode_json_format(self, s: Seq<u8>, wt: u32, n: nat, v: u64, k: nat)
        requires
            parse_tag(s) == Ok::<(u32, u32, nat), DecodeError>((6, wt, n)),
            parse_varint(s.subrange(n as int, s.len() as int)) == Ok::<(u64, nat), DecodeError>((v, k)),
            n + k == s.len(),
        ensures
            self.merge_from(s) == Ok::<FeatureSetModel, DecodeError>((FeatureSetModel { json_format: pb::FeatureSet_::JsonFormat(varint_as_i32(v)), _has: self._has.update(5, true), ..self })),
    {
        reveal(FeatureSetModel::merge_field);
        self.lemma_single_field(s, 6, wt, n);
    }

    /// A field whose number this message does not define is skipped by its wire type:
    /// decoding a buffer that holds just such a field leaves the message as it was.
    pub proof fn lemma_decode_unknown(self, s: Seq<u8>, num: u32, wt: u32, n: nat, k: nat)
        requires
            parse_tag(s) == Ok::<(u32, u32, nat), DecodeError>((num, wt, n)),
            num != 0,
            num != 1 && num != 2 && num != 3 && num != 4 && num != 5 && num != 6,
            skip_len(s.subrange(n as int, s.len() as int), wt) == Ok::<nat, DecodeError>(k),
            n + k == s.len(),
        ensures
            self.merge_from(s) == Ok::<FeatureSetModel, DecodeError>(self),
    {
        reveal(FeatureSetModel::merge_field);
        self.lemma_single_field(s, num, wt, n);
    }
}

impl Default for FeatureSet {
    fn default() -> (r: Self)
        ensures
            r@ == FeatureSetModel::empty(),
    {
        let r = FeatureSet {
            field_presence: pb::FeatureSet_::FieldPresence::default(),
            enum_type: pb::FeatureSet_::EnumType::default(),
            repeated_field_encoding: pb::FeatureSet_::RepeatedFieldEncoding::default(),
            utf8_validation: pb::FeatureSet_::Utf8Validation::default(),
            message_encoding: pb::FeatureSet_::MessageEncoding::default(),
            json_format: pb::FeatureSet_::JsonFormat::default(),
            _has: _Hazzer::default(),
        };
        assert(r@ =~= FeatureSetModel::empty());
        r
    }
}

impl FeatureSet {
    ///Return a reference to `field_presence` as an `Option`
    #[inline]
    pub fn field_presence(&self) -> (r: Option<&pb::FeatureSet_::FieldPresence>)
        ensures
            r == (if self._has@[0] {
                Some(&self.field_presence)
            } else {
                None
            }),
    {
        if self._has.field_presence() {
            Some(&self.field_presence)
        } else {
            None
        }
    }

    ///Return a mutable reference to `field_presence` as an `Option`
    #[inline]
    pub fn mut_field_presence(&mut self) -> (r: Option<&mut pb::FeatureSet_::FieldPresence>)
        ensures
            old(self)._has@[0] ==> r is Some && *r->0 == old(self).field_presence && final(self).field_presence
                == *final(r->0) && *final(self) == (FeatureSet { field_presence: final(self).field_presence, ..*old(self) }),
            !old(self)._has@[0] ==> r is None && *final(self) == *old(self),
    {
        if self._has.field_presence() {
            Some(&mut self.field_presence)
        } else {
            None
        }
    }

    ///Set the value and presence of `field_presence`
    #[inline]
    pub fn set_field_presence(&mut self, value: pb::FeatureSet_::FieldPresence) -> (r: &mut Self)
        ensures
            r._has@ == old(self)._has@.update(0, true),
            *r == (FeatureSet { field_presence: value, _has: r._has, ..*old(self) }),
            *final(self) == *final(r),
    {
        self._has.set_field_presence();
        self.field_presence = value;
        self
    }

    ///Clear the presence of `field_presence`
    #[inline]
    pub fn clear_field_presence(&mut self) -> (r: &mut Self)
        ensures
            r._has@ == old(self)._has@.update(0, false),
            *r == (FeatureSet { _has: r._has, ..*old(self) }),
            *final(self) == *final(r),
    {
        self._has.clear_field_presence();
        self
    }

    ///Take the value of `field_presence` and clear its presence
    #[inline]
    pub fn take_field_presence(&mut self) -> (r: Option<pb::FeatureSet_::FieldPresence>)
        ensures
            r == (if old(self)._has@[0] {
                Some(old(self).field_presence)
            } else {
                None
            }),
            final(self)._has@ == old(self)._has@.update(0, false),
            old(self)._has@[0] ==> final(self).field_presence == pb::FeatureSet_::FieldPresence(0),
            !old(self)._has@[0] ==> final(self).field_presence == old(self).field_presence,
            *final(self) == (FeatureSet { field_presence: final(self).field_presence, _has: final(self)._has, ..*old(self) }),
    {
        let val = if self._has.field_presence() {
            let mut v: pb::FeatureSet_::FieldPresence = pb::FeatureSet_::FieldPresence::default();
            std::mem::swap(&mut self.field_presence, &mut v);
            Some(v)
        } else {
            None
        };
        self._has.clear_field_presence();
        val
    }

    ///Builder method that sets the value of `field_presence`. Useful for initializing the message.
    #[inline]
    pub fn init_field_presence(self, value: pb::FeatureSet_::FieldPresence) -> (r: Self)
        ensures
            r._has@ == self._has@.update(0, true),
            r == (FeatureSet { field_presence: value, _has: r._has, ..self }),
    {
        let mut s = self;
        s.set_field_presence(value);
        s
    }

    ///Return a reference to `enum_type` as an `Option`
    #[inline]
    pub fn enum_type(&self) -> (r: Option<&pb::FeatureSet_::EnumType>)
        ensures
            r == (if self._has@[1] {
                Some(&self.enum_type)
            } else {
                None
            }),
    {
        if self._has.enum_type() {
            Some(&self.enum_type)
        } else {
            None
        }
    }

    ///Return a mutable reference to `enum_type` as an `Option`
    #[inline]
    pub fn mut_enum_type(&mut self) -> (r: Option<&mut pb::FeatureSet_::EnumType>)
        ensures
            old(self)._has@[1] ==> r is Some && *r->0 == old(self).enum_type && final(self).enum_type
                == *final(r->0) && *final(self) == (FeatureSet { enum_type: final(self).enum_type, ..*old(self) }),
            !old(self)._has@[1] ==> r is None && *final(self) == *old(self),
    {
        if self._has.enum_type() {
            Some(&mut self.enum_type)
        } else {
            None
        }
    }

    ///Set the value and presence of `enum_type`
    #[inline]
    pub fn set_enum_type(&mut self, value: pb::FeatureSet_::EnumType) -> (r: &mut Self)
        ensures
            r._has@ == old(self)._has@.update(1, true),
            *r == (FeatureSet { enum_type: value, _has: r._has, ..*old(self) }),
            *final(self) == *final(r),
    {
        self._has.set_enum_type();
        self.enum_type = value;
        self
    }

    ///Clear the presence of `enum_type`
    #[inline]
    pub fn clear_enum_type(&mut self) -> (r: &mut Self)
        ensures
            r._has@ == old(self)._has@.update(1, false),
            *r == (FeatureSet { _has: r._has, ..*old(self) }),
            *final(self) == *final(r),
    {
        self._has.clear_enum_type();
        self
    }

    ///Take the value of `enum_type` and clear its presence
    #[inline]
    pub fn take_enum_type(&mut self) -> (r: Option<pb::FeatureSet_::EnumType>)
        ensures
            r == (if old(self)._has@[1] {
                Some(old(self).enum_type)
            } else {
                None
            }),
            final(self)._has@ == old(self)._has@.update(1, false),
            old(self)._has@[1] ==> final(self).enum_type == pb::FeatureSet_::EnumType(0),
            !old(self)._has@[1] ==> final(self).enum_type == old(self).enum_type,
            *final(self) == (FeatureSet { enum_type: final(self).enum_type, _has: final(self)._has, ..*old(self) }),
    {
        let val = if self._has.enum_type() {
            let mut v: pb::FeatureSet_::EnumType = pb::FeatureSet_::EnumType::default();
            std::mem::swap(&mut self.enum_type, &mut v);
            Some(v)
        } else {
            None
        };
        self._has.clear_enum_type();
        val
    }

    ///Builder method that sets the value of `enum_type`. Useful for initializing the message.
    #[inline]
    pub fn init_enum_type(self, value: pb::FeatureSet_::EnumType) -> (r: Self)
        ensures
            r._has@ == self._has@.update(1, true),
            r == (FeatureSet { enum_type: value, _has: r._has, ..self }),
    {
        let mut s = self;
        s.set_enum_type(value);
        s
    }

    ///Return a reference to `repeated_field_encoding` as an `Option`
    #[inline]
    pub fn repeated_field_encoding(&self) -> (r: Option<&pb::FeatureSet_::RepeatedFieldEncoding>)
        ensures
            r == (if self._has@[2] {
                Some(&self.repeated_field_encoding)
            } else {
                None
            }),
    {
        if self._has.repeated_field_encoding() {
            Some(&self.repeated_field_encoding)
        } else {
            None
        }
    }

    ///Return a mutable reference to `repeated_field_encoding` as an `Option`
    #[inline]
    pub fn mut_repeated_field_encoding(&mut self) -> (r: Option<&mut pb::FeatureSet_::RepeatedFieldEncoding>)
        ensures
            old(self)._has@[2] ==> r is Some && *r->0 == old(self).repeated_field_encoding && final(self).repeated_field_encoding
                == *final(r->0) && *final(self) == (FeatureSet { repeated_field_encoding: final(self).repeated_field_encoding, ..*old(self) }),
            !old(self)._has@[2] ==> r is None && *final(self) == *old(self),
    {
        if self._has.repeated_field_encoding() {
            Some(&mut self.repeated_field_encoding)
        } else {
            None
        }
    }

    ///Set the value and presence of `repeated_field_encoding`
    #[inline]
    pub fn set_repeated_field_encoding(&mut self, value: pb::FeatureSet_::RepeatedFieldEncoding) -> (r: &mut Self)
        ensures
            r._has@ == old(self)._has@.update(2, true),
            *r == (FeatureSet { repeated_field_encoding: value, _has: r._has, ..*old(self) }),
            *final(self) == *final(r),
    {
        self._has.set_repeated_field_encoding();
        self.repeated_field_encoding = value;
        self
    }

    ///Clear the presence of `repeated_field_encoding`
    #[inline]
    pub fn clear_repeated_field_encoding(&mut self) -> (r: &mut Self)
        ensures
            r._has@ == old(self)._has@.update(2, false),
            *r == (FeatureSet { _has: r._has, ..*old(self) }),
            *final(self) == *final(r),
    {
        self._has.clear_repeated_field_encoding();
        self
    }

    ///Take the value of `repeated_field_encoding` and clear its presence
    #[inline]
    pub fn take_repeated_field_encoding(&mut self) -> (r: Option<pb::FeatureSet_::RepeatedFieldEncoding>)
        ensures
            r == (if old(self)._has@[2] {
                Some(old(self).repeated_field_encoding)
            } else {
                None
            }),
            final(self)._has@ == old(self)._has@.update(2, false),
            old(self)._has@[2] ==> final(self).repeated_field_encoding == pb::FeatureSet_::RepeatedFieldEncoding(0),
            !old(self)._has@[2] ==> final(self).repeated_field_encoding == old(self).repeated_field_encoding,
            *final(self) == (FeatureSet { repeated_field_encoding: final(self).repeated_field_encoding, _has: final(self)._has, ..*old(self) }),
    {
        let val = if self._has.repeated_field_encoding() {
            let mut v: pb::FeatureSet_::RepeatedFieldEncoding = pb::FeatureSet_::RepeatedFieldEncoding::default();
            std::mem::swap(&mut self.repeated_field_encoding, &mut v);
            Some(v)
        } else {
            None
        };
        self._has.clear_repeated_field_encoding();
        val
    }

    ///Builder method that sets the value of `repeated_field_encoding`. Useful for initializing the message.
    #[inline]
    pub fn init_repeated_field_encoding(self, value: pb::FeatureSet_::RepeatedFieldEncoding) -> (r: Self)
        ensures
            r._has@ == self._has@.update(2, true),
            r == (FeatureSet { repeated_field_encoding: value, _has: r._has, ..self }),
    {
        let mut s = self;
        s.set_repeated_field_encoding(value);
        s
    }

    ///Return a reference to `utf8_validation` as an `Option`
    #[inline]
    pub fn utf8_validation(&self) -> (r: Option<&pb::FeatureSet_::Utf8Validation>)
        ensures
            r == (if self._has@[3] {
                Some(&self.utf8_validation)
            } else {
                None
            }),
    {
        if self._has.utf8_validation() {
            Some(&self.utf8_validation)
        } else {
            None
        }
    }

    ///Return a mutable reference to `utf8_validation` as an `Option`
    #[inline]
    pub fn mut_utf8_validation(&mut self) -> (r: Option<&mut pb::FeatureSet_::Utf8Validation>)
        ensures
            old(self)._has@[3] ==> r is Some && *r->0 == old(self).utf8_validation && final(self).utf8_validation
                == *final(r->0) && *final(self) == (FeatureSet { utf8_validation: final(self).utf8_validation, ..*old(self) }),
            !old(self)._has@[3] ==> r is None && *final(self) == *old(self),
    {
        if self._has.utf8_validation() {
            Some(&mut self.utf8_validation)
        } else {
            None
        }
    }

    ///Set the value and presence of `utf8_validation`
    #[inline]
    pub fn set_utf8_validation(&mut self, value: pb::FeatureSet_::Utf8Validation) -> (r: &mut Self)
        ensures
            r._has@ == old(self)._has@.update(3, true),
            *r == (FeatureSet { utf8_validation: value, _has: r._has, ..*old(self) }),
            *final(self) == *final(r),
    {
        self._has.set_utf8_validation();
        self.utf8_validation = value;
        self
    }

    ///Clear the presence of `utf8_validation`
    #[inline]
    pub fn clear_utf8_validation(&mut self) -> (r: &mut Self)
        ensures
            r._has@ == old(self)._has@.update(3, false),
            *r == (FeatureSet { _has: r._has, ..*old(self) }),
            *final(self) == *final(r),
    {
        self._has.clear_utf8_validation();
        self
    }

    ///Take the value of `utf8_validation` and clear its presence
    #[inline]
    pub fn take_utf8_validation(&mut self) -> (r: Option<pb::FeatureSet_::Utf8Validation>)
        ensures
            r == (if old(self)._has@[3] {
                Some(old(self).utf8_validation)
            } else {
                None
            }),
            final(self)._has@ == old(self)._has@.update(3, false),
            old(self)._has@[3] ==> final(self).utf8_validation == pb::FeatureSet_::Utf8Validation(0),
            !old(self)._has@[3] ==> final(self).utf8_validation == old(self).utf8_validation,
            *final(self) == (FeatureSet { utf8_validation: final(self).utf8_validation, _has: final(self)._has, ..*old(self) }),
    {
        let val = if self._has.utf8_validation() {
            let mut v: pb::FeatureSet_::Utf8Validation = pb::FeatureSet_::Utf8Validation::default();
            std::mem::swap(&mut self.utf8_validation, &mut v);
            Some(v)
        } else {
            None
        };
        self._has.clear_utf8_validation();
        val
    }

    ///Builder method that sets the value of `utf8_validation`. Useful for initializing the message.
    #[inline]
    pub fn init_utf8_validation(self, value: pb::FeatureSet_::Utf8Validation) -> (r: Self)
        ensures
            r._has@ == self._has@.update(3, true),
            r == (FeatureSet { utf8_validation: value, _has: r._has, ..self }),
    {
        let mut s = self;
        s.set_utf8_validation(value);
        s
    }

    ///Return a reference to `message_encoding` as an `Option`
    #[inline]
    pub fn message_encoding(&self) -> (r: Option<&pb::FeatureSet_::MessageEncoding>)
        ensures
            r == (if self._has@[4] {
                Some(&self.message_encoding)
            } else {
                None
            }),
    {
        if self._has.message_encoding() {
            Some(&self.message_encoding)
        } else {
            None
        }
    }

    ///Return a mutable reference to `message_encoding` as an `Option`
    #[inline]
    pub fn mut_message_encoding(&mut self) -> (r: Option<&mut pb::FeatureSet_::MessageEncoding>)
        ensures
            old(self)._has@[4] ==> r is Some && *r->0 == old(self).message_encoding && final(self).message_encoding
                == *final(r->0) && *final(self) == (FeatureSet { message_encoding: final(self).message_encoding, ..*old(self) }),
            !old(self)._has@[4] ==> r is None && *final(self) == *old(self),
    {
        if self._has.message_encoding() {
            Some(&mut self.message_encoding)
        } else {
            None
        }
    }

    ///Set the value and presence of `message_encoding`
    #[inline]
    pub fn set_message_encoding(&mut self, value: pb::FeatureSet_::MessageEncoding) -> (r: &mut Self)
        ensures
            r._has@ == old(self)._has@.update(4, true),
            *r == (FeatureSet { message_encoding: value, _has: r._has, ..*old(self) }),
            *final(self) == *final(r),
    {
        self._has.set_message_encoding();
        self.message_encoding = value;
        self
    }

    ///Clear the presence of `message_encoding`
    #[inline]
    pub fn clear_message_encoding(&mut self) -> (r: &mut Self)
        ensures
            r._has@ == old(self)._has@.update(4, false),
            *r == (FeatureSet { _has: r._has, ..*old(self) }),
            *final(self) == *final(r),
    {
        self._has.clear_message_encoding();
        self
    }

    ///Take the value of `message_encoding` and clear its presence
    #[inline]
    pub fn take_message_encoding(&mut self) -> (r: Option<pb::FeatureSet_::MessageEncoding>)
        ensures
            r == (if old(self)._has@[4] {
                Some(old(self).message_encoding)
            } else {
                None
            }),
            final(self)._has@ == old(self)._has@.update(4, false),
            old(self)._has@[4] ==> final(self).message_encoding == pb::FeatureSet_::MessageEncoding(0),
            !old(self)._has@[4] ==> final(self).message_encoding == old(self).message_encoding,
            *final(self) == (FeatureSet { message_encoding: final(self).message_encoding, _has: final(self)._has, ..*old(self) }),
    {
        let val = if self._has.message_encoding() {
            let mut v: pb::FeatureSet_::MessageEncoding = pb::FeatureSet_::MessageEncoding::default();
            std::mem::swap(&mut self.message_encoding, &mut v);
            Some(v)
        } else {
            None
        };
        self._has.clear_message_encoding();
        val
    }

    ///Builder method that sets the value of `message_encoding`. Useful for initializing the message.
    #[inline]
    pub fn init_message_encoding(self, value: pb::FeatureSet_::MessageEncoding) -> (r: Self)
        ensures
            r._has@ == self._has@.update(4, true),
            r == (FeatureSet { message_encoding: value, _has: r._has, ..self }),
    {
        let mut s = self;
        s.set_message_encoding(value);
        s
    }

    ///Return a reference to `json_format` as an `Option`
    #[inline]
    pub fn json_format(&self) -> (r: Option<&pb::FeatureSet_::JsonFormat>)
        ensures
            r == (if self._has@[5] {
                Some(&self.json_format)
            } else {
                None
            }),
    {
        if self._has.json_format() {
            Some(&self.json_format)
        } else {
            None
        }
    }

    ///Return a mutable reference to `json_format` as an `Option`
    #[inline]
    pub fn mut_json_format(&mut self) -> (r: Option<&mut pb::FeatureSet_::JsonFormat>)
        ensures
            old(self)._has@[5] ==> r is Some && *r->0 == old(self).json_format && final(self).json_format
                == *final(r->0) && *final(self) == (FeatureSet { json_format: final(self).json_format, ..*old(self) }),
            !old(self)._has@[5] ==> r is None && *final(self) == *old(self),
    {
        if self._has.json_format() {
            Some(&mut self.json_format)
        } else {
            None
        }
    }

    ///Set the value and presence of `json_format`
    #[inline]
    pub fn set_json_format(&mut self, value: pb::FeatureSet_::JsonFormat) -> (r: &mut Self)
        ensures
            r._has@ == old(self)._has@.update(5, true),
            *r == (FeatureSet { json_format: value, _has: r._has, ..*old(self) }),
            *final(self) == *final(r),
    {
        self._has.set_json_format();
        self.json_format = value;
        self
    }

    ///Clear the presence of `json_format`
    #[inline]
    pub fn clear_json_format(&mut self) -> (r: &mut Self)
        ensures
            r._has@ == old(self)._has@.update(5, false),
            *r == (FeatureSet { _has: r._has, ..*old(self) }),
            *final(self) == *final(r),
    {
        self._has.clear_json_format();
        self
    }

    ///Take the value of `json_format` and clear its presence
    #[inline]
    pub fn take_json_format(&mut self) -> (r: Option<pb::FeatureSet_::JsonFormat>)
        ensures
            r == (if old(self)._has@[5] {
                Some(old(self).json_format)
            } else {
                None
            }),
            final(self)._has@ == old(self)._has@.update(5, false),
            old(self)._has@[5] ==> final(self).json_format == pb::FeatureSet_::JsonFormat(0),
            !old(self)._has@[5] ==> final(self).json_format == old(self).json_format,
            *final(self) == (FeatureSet { json_format: final(self).json_format, _has: final(self)._has, ..*old(self) }),
    {
        let val = if self._has.json_format() {
            let mut v: pb::FeatureSet_::JsonFormat = pb::FeatureSet_::JsonFormat::default();
            std::mem::swap(&mut self.json_format, &mut v);
            Some(v)
        } else {
            None
        };
        self._has.clear_json_format();
        val
    }

    ///Builder method that sets the value of `json_format`. Useful for initializing the message.
    #[inline]
    pub fn init_json_format(self, value: pb::FeatureSet_::JsonFormat) -> (r: Self)
        ensures
            r._has@ == self._has@.update(5, true),
            r == (FeatureSet { json_format: value, _has: r._has, ..self }),
    {
        let mut s = self;
        s.set_json_format(value);
        s
    }

    /// Merges the value of the field numbered `num`, with wire type `wt`, that starts at
    /// `pos` in `buf` into the message, and gives the position just past the value.
    pub fn merge_field(&mut self, num: u32, wt: u32, buf: &[u8], pos: usize) -> (r: Result<usize, DecodeError>)
        requires
            pos <= buf.len(),
        ensures
            match old(self)@.merge_field(num, wt, buf@.subrange(pos as int, buf.len() as int)) {
                Ok((m, k)) => r matches Ok(next) && next == pos + k && final(self)@ == m,
                Err(e) => r == Err::<usize, DecodeError>(e),
            },
            r matches Ok(next) ==> next <= buf.len(),
            r is Err ==> final(self)@ == old(self)@,
    {
        proof {
            reveal(FeatureSetModel::merge_field);
        }
        match num {
            1 => self.merge_field_presence_field(wt, buf, pos),
            2 => self.merge_enum_type_field(wt, buf, pos),
            3 => self.merge_repeated_field_encoding_field(wt, buf, pos),
            4 => self.merge_utf8_validation_field(wt, buf, pos),
            5 => self.merge_message_encoding_field(wt, buf, pos),
            6 => self.merge_json_format_field(wt, buf, pos),
            _ => skip_value(buf, pos, buf.len(), wt),
        }
    }

    /// Merges the value of a field numbered 1, starting at `pos` in `buf`, into `field_presence`.
    fn merge_field_presence_field(&mut self, wt: u32, buf: &[u8], pos: usize) -> (r: Result<usize, DecodeError>)
        requires
            pos <= buf.len(),
        ensures
            match old(self)@.merge_field(1, wt, buf@.subrange(pos as int, buf.len() as int)) {
                Ok((m, k)) => r matches Ok(next) && next == pos + k && final(self)@ == m,
                Err(e) => r == Err::<usize, DecodeError>(e),
            },
            r matches Ok(next) ==> next <= buf.len(),
            r is Err ==> final(self)@ == old(self)@,
    {
        proof {
            reveal(FeatureSetModel::merge_field);
        }
        let ghost m0 = self@;
        let end = buf.len();
        match read_varint(buf, pos, end) {
            Ok((v, next)) => {
                self.field_presence = pb::FeatureSet_::FieldPresence(to_i32(v));
                self._has.set_field_presence();
                proof {
                    assert(self@ =~= (FeatureSetModel { field_presence: pb::FeatureSet_::FieldPresence(varint_as_i32(v)), _has: m0._has.update(0, true), ..m0 }));
                }
                Ok(next)
            },
            Err(e) => Err(e),
        }
    }

    /// Merges the value of a field numbered 2, starting at `pos` in `buf`, into `enum_type`.
    fn merge_enum_type_field(&mut self, wt: u32, buf: &[u8], pos: usize) -> (r: Result<usize, DecodeError>)
        requires
            pos <= buf.len(),
        ensures
            match old(self)@.merge_field(2, wt, buf@.subrange(pos as int, buf.len() as int)) {
                Ok((m, k)) => r matches Ok(next) && next == pos + k && final(self)@ == m,
                Err(e) => r == Err::<usize, DecodeError>(e),
            },
            r matches Ok(next) ==> next <= buf.len(),
            r is Err ==> final(self)@ == old(self)@,
    {
        proof {
            reveal(FeatureSetModel::merge_field);
        }
        let ghost m0 = self@;
        let end = buf.len();
        match read_varint(buf, pos, end) {
            Ok((v, next)) => {
                self.enum_type = pb::FeatureSet_::EnumType(to_i32(v));
                self._has.set_enum_type();
                proof {
                    assert(self@ =~= (FeatureSetModel { enum_type: pb::FeatureSet_::EnumType(varint_as_i32(v)), _has: m0._has.update(1, true), ..m0 }));
                }
                Ok(next)
            },
            Err(e) => Err(e),
        }
    }

    /// Merges the value of a field numbered 3, starting at `pos` in `buf`, into `repeated_field_encoding`.
    fn merge_repeated_field_encoding_field(&mut self, wt: u32, buf: &[u8], pos: usize) -> (r: Result<usize, DecodeError>)
        requires
            pos <= buf.len(),
        ensures
            match old(self)@.merge_field(3, wt, buf@.subrange(pos as int, buf.len() as int)) {
                Ok((m, k)) => r matches Ok(next) && next == pos + k && final(self)@ == m,
                Err(e) => r == Err::<usize, DecodeError>(e),
            },
            r matches Ok(next) ==> next <= buf.len(),
            r is Err ==> final(self)@ == old(self)@,
    {
        proof {
            reveal(FeatureSetModel::merge_field);
        }
        let ghost m0 = self@;
        let end = buf.len();
        match read_varint(buf, pos, end) {
            Ok((v, next)) => {
                self.repeated_field_encoding = pb::FeatureSet_::RepeatedFieldEncoding(to_i32(v));
                self._has.set_repeated_field_encoding();
                proof {
                    assert(self@ =~= (FeatureSetModel { repeated_field_encoding: pb::FeatureSet_::RepeatedFieldEncoding(varint_as_i32(v)), _has: m0._has.update(2, true), ..m0 }));
                }
                Ok(next)
            },
            Err(e) => Err(e),
        }
    }

    /// Merges the value of a field numbered 4, starting at `pos` in `buf`, into `utf8_validation`.
    fn merge_utf8_validation_field(&mut self, wt: u32, buf: &[u8], pos: usize) -> (r: Result<usize, DecodeError>)
        requires
            pos <= buf.len(),
        ensures
            match old(self)@.merge_field(4, wt, buf@.subrange(pos as int, buf.len() as int)) {
                Ok((m, k)) => r matches Ok(next) && next == pos + k && final(self)@ == m,
                Err(e) => r == Err::<usize, DecodeError>(e),
            },
            r matches Ok(next) ==> next <= buf.len(),
            r is Err ==> final(self)@ == old(self)@,
    {
        proof {
            reveal(FeatureSetModel::merge_field);
        }
        let ghost m0 = self@;
        let end = buf.len();
        match read_varint(buf, pos, end) {
            Ok((v, next)) => {
                self.utf8_validation = pb::FeatureSet_::Utf8Validation(to_i32(v));
                self._has.set_utf8_validation();
                proof {
                    assert(self@ =~= (FeatureSetModel { utf8_validation: pb::FeatureSet_::Utf8Validation(varint_as_i32(v)), _has: m0._has.update(3, true), ..m0 }));
                }
                Ok(next)
            },
            Err(e) => Err(e),
        }
    }

    /// Merges the value of a field numbered 5, starting at `pos` in `buf`, into `message_encoding`.
    fn merge_message_encoding_field(&mut self, wt: u32, buf: &[u8], pos: usize) -> (r: Result<usize, DecodeError>)
        requires
            pos <= buf.len(),
        ensures
            match old(self)@.merge_field(5, wt, buf@.subrange(pos as int, buf.len() as int)) {
                Ok((m, k)) => r matches Ok(next) && next == pos + k && final(self)@ == m,
                Err(e) => r == Err::<usize, DecodeError>(e),
            },
            r matches Ok(next) ==> next <= buf.len(),
            r is Err ==> final(self)@ == old(self)@,
    {
        proof {
            reveal(FeatureSetModel::merge_field);
        }
        let ghost m0 = self@;
        let end = buf.len();
        match read_varint(buf, pos, end) {
            Ok((v, next)) => {
                self.message_encoding = pb::FeatureSet_::MessageEncoding(to_i32(v));
                self._has.set_message_encoding();
                proof {
                    assert(self@ =~= (FeatureSetModel { message_encoding: pb::FeatureSet_::MessageEncoding(varint_as_i32(v)), _has: m0._has.update(4, true), ..m0 }));
                }
                Ok(next)
            },
            Err(e) => Err(e),
        }
    }

    /// Merges the value of a field numbered 6, starting at `pos` in `buf`, into `json_format`.
    fn merge_json_format_field(&mut self, wt: u32, buf: &[u8], pos: usize) -> (r: Result<usize, DecodeError>)
        requires
            pos <= buf.len(),
        ensures
            match old(self)@.merge_field(6, wt, buf@.subrange(pos as int, buf.len() as int)) {
                Ok((m, k)) => r matches Ok(next) && next == pos + k && final(self)@ == m,
                Err(e) => r == Err::<usize, DecodeError>(e),
            },
            r matches Ok(next) ==> next <= buf.len(),
            r is Err ==> final(self)@ == old(self)@,
    {
        proof {
            reveal(FeatureSetModel::merge_field);
        }
        let ghost m0 = self@;
        let end = buf.len();
        match read_varint(buf, pos, end) {
            Ok((v, next)) => {
                self.json_format = pb::FeatureSet_::JsonFormat(to_i32(v));
                self._has.set_json_format();
                proof {
                    assert(self@ =~= (FeatureSetModel { json_format: pb::FeatureSet_::JsonFormat(varint_as_i32(v)), _has: m0._has.update(5, true), ..m0 }));
                }
                Ok(next)
            },
            Err(e) => Err(e),
        }
    }

    /// Reads fields from `buf`, from `start` on, into the message while fewer than `len`
    /// bytes have been read, and gives the position just past the last field read.
    #[verifier::rlimit(40)]
    pub fn decode(&mut self, buf: &[u8], start: usize, len: u64) -> (r: Result<usize, DecodeError>)
        requires
            start <= buf.len(),
        ensures
            match old(self)@.decode_stream(buf@.subrange(start as int, buf.len() as int), len as int) {
                Ok((m, c)) => r matches Ok(next) && next == start + c && final(self)@ == m,
                Err(e) => r == Err::<usize, DecodeError>(e),
            },
            r matches Ok(next) ==> next <= buf.len(),
            r is Err ==> final(self)@ == old(self)@.until_error_stream(
                buf@.subrange(start as int, buf.len() as int),
                len as int,
            ),
    {
        let mut pos = start;
        while ((pos - start) as u64) < len
            invariant
                start <= pos <= buf.len(),
                old(self)@.decode_stream(buf@.subrange(start as int, buf.len() as int), len as int)
                    == shift_consumed(
                    self@.decode_stream(buf@.subrange(pos as int, buf.len() as int), len - (pos - start)),
                    (pos - start) as nat,
                ),
                old(self)@.until_error_stream(buf@.subrange(start as int, buf.len() as int), len as int)
                    == self@.until_error_stream(buf@.subrange(pos as int, buf.len() as int), len - (pos - start)),
            decreases buf.len() - pos,
        {
            let ghost s = buf@.subrange(pos as int, buf.len() as int);
            let (num, wt, p) = match read_tag(buf, pos, buf.len()) {
                Ok(x) => x,
                Err(e) => return Err(e),
            };
            if num == 0 {
                return Err(DecodeError::ZeroField);
            }
            proof {
                lemma_tag_bounds(s);
                assert(s.subrange((p - pos) as int, s.len() as int) =~= buf@.subrange(p as int, buf.len() as int));
            }
            let next = match self.merge_field(num, wt, buf, p) {
                Ok(x) => x,
                Err(e) => return Err(e),
            };
            proof {
                let rest = buf@.subrange(p as int, buf.len() as int);
                assert(rest.subrange((next - p) as int, rest.len() as int) =~= buf@.subrange(
                    next as int,
                    buf.len() as int,
                ));
            }
            pos = next;
        }
        Ok(pos)
    }

    /// Merges the fields encoded in `bytes` into the message.
    pub fn decode_from_bytes(&mut self, bytes: &[u8]) -> (r: Result<(), DecodeError>)
        ensures
            match old(self)@.merge_from(bytes@) {
                Ok(m) => r is Ok && final(self)@ == m,
                Err(e) => r == Err::<(), DecodeError>(e),
            },
            r is Err ==> final(self)@ == old(self)@.merge_until_error(bytes@),
    {
        assert(bytes@.subrange(0, bytes@.len() as int) =~= bytes@);
        match self.decode(bytes, 0, bytes.len() as u64) {
            Ok(_) => Ok(()),
            Err(e) => Err(e),
        }
    }
}

} // verus!
