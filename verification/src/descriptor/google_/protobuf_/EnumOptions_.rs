//! `EnumOptions`, with its nested types and its presence bits.
use vstd::prelude::*;
use vstd::utf8::{decode_utf8, valid_utf8};
use crate::bits::{flags_of, lemma_flags_clear, lemma_flags_get, lemma_flags_set, lemma_flags_zero};
use crate::descriptor::google_::protobuf_ as pb;
use crate::wire::{
    copy_bytes, lemma_len_bounds, lemma_varint_bounds, lemma_tag_bounds, lemma_values_prefix, parse_fixed64, parse_len, parse_packed_i32,
    parse_string, parse_tag, parse_varint, read_fixed64, read_len, read_packed_i32, read_string,
    read_tag, read_varint, shift_consumed, skip_len, skip_value, to_i32, to_i64, varint_as_i32,
    varint_as_i64, DecodeError, WIRE_TYPE_LEN,
};


verus! {

/// Presence bits of the optional fields of `EnumOptions`: bit `i % 8` of byte `i / 8` is flag `i`.
#[derive(Debug, PartialEq)]
pub struct _Hazzer(pub [u8; 1]);

impl View for _Hazzer {
    type V = Seq<bool>;

    open spec fn view(&self) -> Seq<bool> {
        flags_of(self.0@)
    }
}

impl Default for _Hazzer {
    fn default() -> (r: Self)
        ensures
            r@ == Seq::new(8, |i: int| false),
    {
        let r = _Hazzer([0u8]);
        proof {
            lemma_flags_zero(r.0@);
            assert(r@ =~= Seq::new(8, |i: int| false));
        }
        r
    }
}

impl Clone for _Hazzer {
    fn clone(&self) -> (r: Self)
        ensures
            r == *self,
    {
        _Hazzer(self.0)
    }
}

impl _Hazzer {
    ///Query presence of `allow_alias`
    #[inline]
    pub fn allow_alias(&self) -> (r: bool)
        ensures
            r == self@[0],
    {
        proof {
            lemma_flags_get(self.0@, 0, 0);
        }
        (self.0[0] & (1u8 << 0u8)) != 0
    }

    ///Set presence of `allow_alias`
    #[inline]
    pub fn set_allow_alias(&mut self) -> (r: &mut Self)
        ensures
            r@ == old(self)@.update(0, true),
            *final(self) == *final(r),
    {
        let ghost bytes = self.0@;
        self.0[0] = self.0[0] | (1u8 << 0u8);
        proof {
            lemma_flags_set(bytes, self.0@, 0, 0);
        }
        self
    }

    ///Clear presence of `allow_alias`
    #[inline]
    pub fn clear_allow_alias(&mut self) -> (r: &mut Self)
        ensures
            r@ == old(self)@.update(0, false),
            *final(self) == *final(r),
    {
        let ghost bytes = self.0@;
        self.0[0] = self.0[0] & !(1u8 << 0u8);
        proof {
            lemma_flags_clear(bytes, self.0@, 0, 0);
        }
        self
    }

    ///Builder method that sets the presence of `allow_alias`. Useful for initializing the Hazzer.
    #[inline]
    pub fn init_allow_alias(self) -> (r: Self)
        ensures
            r@ == self@.update(0, true),
    {
        let mut s = self;
        s.set_allow_alias();
        s
    }

    ///Query presence of `deprecated`
    #[inline]
    pub fn deprecated(&self) -> (r: bool)
        ensures
            r == self@[1],
    {
        proof {
            lemma_flags_get(self.0@, 0, 1);
        }
        (self.0[0] & (1u8 << 1u8)) != 0
    }

    ///Set presence of `deprecated`
    #[inline]
    pub fn set_deprecated(&mut self) -> (r: &mut Self)
        ensures
            r@ == old(self)@.update(1, true),
            *final(self) == *final(r),
    {
        let ghost bytes = self.0@;
        self.0[0] = self.0[0] | (1u8 << 1u8);
        proof {
            lemma_flags_set(bytes, self.0@, 0, 1);
        }
        self
    }

    ///Clear presence of `deprecated`
    #[inline]
    pub fn clear_deprecated(&mut self) -> (r: &mut Self)
        ensures
            r@ == old(self)@.update(1, false),
            *final(self) == *final(r),
    {
        let ghost bytes = self.0@;
        self.0[0] = self.0[0] & !(1u8 << 1u8);
        proof {
            lemma_flags_clear(bytes, self.0@, 0, 1);
        }
        self
    }

    ///Builder method that sets the presence of `deprecated`. Useful for initializing the Hazzer.
    #[inline]
    pub fn init_deprecated(self) -> (r: Self)
        ensures
            r@ == self@.update(1, true),
    {
        let mut s = self;
        s.set_deprecated();
        s
    }

    ///Query presence of `deprecated_legacy_json_field_conflicts`
    #[inline]
    pub fn deprecated_legacy_json_field_conflicts(&self) -> (r: bool)
        ensures
            r == self@[2],
    {
        proof {
            lemma_flags_get(self.0@, 0, 2);
        }
        (self.0[0] & (1u8 << 2u8)) != 0
    }

    ///Set presence of `deprecated_legacy_json_field_conflicts`
    #[inline]
    pub fn set_deprecated_legacy_json_field_conflicts(&mut self) -> (r: &mut Self)
        ensures
            r@ == old(self)@.update(2, true),
            *final(self) == *final(r),
    {
        let ghost bytes = self.0@;
        self.0[0] = self.0[0] | (1u8 << 2u8);
        proof {
            lemma_flags_set(bytes, self.0@, 0, 2);
        }
        self
    }

    ///Clear presence of `deprecated_legacy_json_field_conflicts`
    #[inline]
    pub fn clear_deprecated_legacy_json_field_conflicts(&mut self) -> (r: &mut Self)
        ensures
            r@ == old(self)@.update(2, false),
            *final(self) == *final(r),
    {
        let ghost bytes = self.0@;
        self.0[0] = self.0[0] & !(1u8 << 2u8);
        proof {
            lemma_flags_clear(bytes, self.0@, 0, 2);
        }
        self
    }

    ///Builder method that sets the presence of `deprecated_legacy_json_field_conflicts`. Useful for initializing the Hazzer.
    #[inline]
    pub fn init_deprecated_legacy_json_field_conflicts(self) -> (r: Self)
        ensures
            r@ == self@.update(2, true),
    {
        let mut s = self;
        s.set_deprecated_legacy_json_field_conflicts();
        s
    }

    ///Query presence of `features`
    #[inline]
    pub fn features(&self) -> (r: bool)
        ensures
            r == self@[3],
    {
        proof {
            lemma_flags_get(self.0@, 0, 3);
        }
        (self.0[0] & (1u8 << 3u8)) != 0
    }

    ///Set presence of `features`
    #[inline]
    pub fn set_features(&mut self) -> (r: &mut Self)
        ensures
            r@ == old(self)@.update(3, true),
            *final(self) == *final(r),
    {
        let ghost bytes = self.0@;
        self.0[0] = self.0[0] | (1u8 << 3u8);
        proof {
            lemma_flags_set(bytes, self.0@, 0, 3);
        }
        self
    }

    ///Clear presence of `features`
    #[inline]
    pub fn clear_features(&mut self) -> (r: &mut Self)
        ensures
            r@ == old(self)@.update(3, false),
            *final(self) == *final(r),
    {
        let ghost bytes = self.0@;
        self.0[0] = self.0[0] & !(1u8 << 3u8);
        proof {
            lemma_flags_clear(bytes, self.0@, 0, 3);
        }
        self
    }

    ///Builder method that sets the presence of `features`. Useful for initializing the Hazzer.
    #[inline]
    pub fn init_features(self) -> (r: Self)
        ensures
            r@ == self@.update(3, true),
    {
        let mut s = self;
        s.set_features();
        s
    }
}

/// The Protobuf message `google.protobuf.EnumOptions`.
#[derive(Debug)]
pub struct EnumOptions {
    pub allow_alias: bool,
    pub deprecated: bool,
    pub deprecated_legacy_json_field_conflicts: bool,
    pub features: pb::FeatureSet_::FeatureSet,
    pub uninterpreted_option: Vec<pb::UninterpretedOption_::UninterpretedOption>,
    pub _has: _Hazzer,
}

/// The value of a `EnumOptions` as the contracts see it.
#[verifier::ext_equal]
pub ghost struct EnumOptionsModel {
    pub allow_alias: bool,
    pub deprecated: bool,
    pub deprecated_legacy_json_field_conflicts: bool,
    pub features: pb::FeatureSet_::FeatureSetModel,
    pub uninterpreted_option: Seq<pb::UninterpretedOption_::UninterpretedOptionModel>,
    pub _has: Seq<bool>,
}

impl View for EnumOptions {
    type V = EnumOptionsModel;

    open spec fn view(&self) -> EnumOptionsModel {
        EnumOptionsModel {
            allow_alias: self.allow_alias,
            deprecated: self.deprecated,
            deprecated_legacy_json_field_conflicts: self.deprecated_legacy_json_field_conflicts,
            features: self.features@,
            uninterpreted_option: self.uninterpreted_option@.map_values(|m: pb::UninterpretedOption_::UninterpretedOption| m@),
            _has: self._has@,
        }
    }
}

impl EnumOptionsModel {
    /// The value of a `EnumOptions` with no field set.
    pub open spec fn empty() -> EnumOptionsModel {
        EnumOptionsModel {
            allow_alias: false,
            deprecated: false,
            deprecated_legacy_json_field_conflicts: false,
            features: pb::FeatureSet_::FeatureSetModel::empty(),
            uninterpreted_option: Seq::empty(),
            _has: Seq::new(8, |i: int| false),
        }
    }

    /// The message after the value of the field numbered `num`, with wire type `wt`, at the
    /// start of `s` has been merged into it, and the length of that value. A known field is
    /// read as its own type: a later value of a singular field replaces the earlier one, and
    /// a repeated field gains the values at its end. An unknown field is skipped by its wire
    /// type and leaves the message as it was.
    #[verifier::opaque]
    pub open spec fn merge_field(self, num: u32, wt: u32, s: Seq<u8>) -> Result<(EnumOptionsModel, nat), DecodeError>
    {
        if num == 2 {
            match parse_varint(s) {
                Ok((v, n)) => Ok(((EnumOptionsModel { allow_alias: v != 0, _has: self._has.update(0, true), ..self }), n)),
                Err(e) => Err(e),
            }
        } else if num == 3 {
            match parse_varint(s) {
                Ok((v, n)) => Ok(((EnumOptionsModel { deprecated: v != 0, _has: self._has.update(1, true), ..self }), n)),
                Err(e) => Err(e),
            }
        } else if num == 6 {
            match parse_varint(s) {
                Ok((v, n)) => Ok(((EnumOptionsModel { deprecated_legacy_json_field_conflicts: v != 0, _has: self._has.update(2, true), ..self }), n)),
                Err(e) => Err(e),
            }
        } else if num == 7 {
            match parse_varint(s) {
                Ok((l, m)) => if 0 < m <= s.len() {
                    match self.features.decode_stream(s.subrange(m as int, s.len() as int), l as int) {
                        Ok((x, c)) => Ok(((EnumOptionsModel { features: x, _has: self._has.update(3, true), ..self }), m + c)),
                        Err(e) => Err(e),
                    }
                } else {
                    Err(DecodeError::UnexpectedEof)
                },
                Err(e) => Err(e),
            }
        } else if num == 999 {
            match parse_varint(s) {
                Ok((l, m)) => if 0 < m <= s.len() {
                    match pb::UninterpretedOption_::UninterpretedOptionModel::empty().decode_stream(s.subrange(m as int, s.len() as int), l as int) {
                        Ok((x, c)) => Ok(((EnumOptionsModel { uninterpreted_option: self.uninterpreted_option.push(x), ..self }), m + c)),
                        Err(e) => Err(e),
                    }
                } else {
                    Err(DecodeError::UnexpectedEof)
                },
                Err(e) => Err(e),
            }
        } else {
            match skip_len(s, wt) {
                Ok(n) => Ok((self, n)),
                Err(e) => Err(e),
            }
        }
    }

    /// The message after its fields have been read from the start of `s` while fewer than
    /// `rem` bytes have been read, and how many bytes were read. Each field is read whole,
    /// so the last one may run past `rem`. A field numbered 0 is refused.
    pub open spec fn decode_stream(self, s: Seq<u8>, rem: int) -> Result<(EnumOptionsModel, nat), DecodeError>
        decreases s.len(),
    {
        if rem <= 0 {
            Ok((self, 0))
        } else {
            match parse_tag(s) {
                Err(e) => Err(e),
                Ok((num, wt, n)) => if num == 0 {
                    Err(DecodeError::ZeroField)
                } else if 0 < n <= s.len() {
                    let rest = s.subrange(n as int, s.len() as int);
                    match self.merge_field(num, wt, rest) {
                        Ok((m, k)) => if k <= rest.len() {
                            shift_consumed(
                                m.decode_stream(rest.subrange(k as int, rest.len() as int), rem - (n + k)),
                                n + k,
                            )
                        } else {
                            Err(DecodeError::UnexpectedEof)
                        },
                        Err(e) => Err(e),
                    }
                } else {
                    Err(DecodeError::UnexpectedEof)
                },
            }
        }
    }

    /// The message after every field in `s` has been merged into it, in order: its fields
    /// read from `s` while fewer than `s.len()` bytes have been read.
    pub open spec fn merge_from(self, s: Seq<u8>) -> Result<EnumOptionsModel, DecodeError> {
        match self.decode_stream(s, s.len() as int) {
            Ok((m, c)) => Ok(m),
            Err(e) => Err(e),
        }
    }

    /// The message as a failed merge of the field numbered `num`, with wire type `wt`, at
    /// the start of `s` leaves it: a nested message keeps what was read into it before
    /// its own failure, and nothing else changes.
    pub open spec fn merge_field_partial(self, num: u32, wt: u32, s: Seq<u8>) -> EnumOptionsModel {
        if num == 7 {
            match parse_varint(s) {
                Ok((l, m)) => if 0 < m <= s.len() {
                    EnumOptionsModel { features: self.features.until_error_stream(s.subrange(m as int, s.len() as int), l as int), ..self }
                } else {
                    self
                },
                Err(e) => self,
            }
        } else {
            self
        }
    }

    /// The message after its fields have been read from the start of `s`, as in
    /// `decode_stream`, up to the first one that fails: that one leaves the message as its
    /// failed merge does, and no field after it is read.
    pub open spec fn until_error_stream(self, s: Seq<u8>, rem: int) -> EnumOptionsModel
        decreases s.len(),
    {
        if rem <= 0 {
            self
        } else {
            match parse_tag(s) {
                Err(e) => self,
                Ok((num, wt, n)) => if num == 0 {
                    self
                } else if 0 < n <= s.len() {
                    let rest = s.subrange(n as int, s.len() as int);
                    match self.merge_field(num, wt, rest) {
                        Ok((m, k)) => if k <= rest.len() {
                            m.until_error_stream(rest.subrange(k as int, rest.len() as int), rem - (n + k))
                        } else {
                            m
                        },
                        Err(e) => self.merge_field_partial(num, wt, rest),
                    }
                } else {
                    self
                },
            }
        }
    }

    /// The message after the fields of `s` have been merged into it in order, up to the
    /// first one that fails, which leaves the message as its failed merge does. When none
    /// fails, this is what `merge_from` gives.
    pub open spec fn merge_until_error(self, s: Seq<u8>) -> EnumOptionsModel {
        self.until_error_stream(s, s.len() as int)
    }

    /// Reading fields reads at most the whole input, and at least `rem` bytes when `rem` is
    /// positive.
    pub proof fn lemma_stream_bounds(self, s: Seq<u8>, rem: int)
        ensures
            self.decode_stream(s, rem) matches Ok((m, c)) ==> c <= s.len() && (rem > 0 ==> c >= rem) && (
            rem <= 0 ==> c == 0),
        decreases s.len(),
    {
        if rem > 0 {
            if let Ok((num, wt, n)) = parse_tag(s) {
                if num != 0 && 0 < n <= s.len() {
                    let rest = s.subrange(n as int, s.len() as int);
                    if let Ok((m, k)) = self.merge_field(num, wt, rest) {
                        if k <= rest.len() {
                            m.lemma_stream_bounds(rest.subrange(k as int, rest.len() as int), rem - (n + k));
                        }
                    }
                }
            }
        }
    }

    /// Fields that can be read from `s` read the same from `s` followed by anything.
    pub proof fn lemma_stream_prefix(self, s: Seq<u8>, b: Seq<u8>, rem: int)
        requires
            self.decode_stream(s, rem) is Ok,
        ensures
            self.decode_stream(s + b, rem) == self.decode_stream(s, rem),
        decreases s.len(),
    {
        if rem > 0 {
            lemma_values_prefix(s, b);
            let (num, wt, n) = parse_tag(s)->Ok_0;
            let rest = s.subrange(n as int, s.len() as int);
            assert((s + b).subrange(n as int, (s + b).len() as int) =~= rest + b);
            self.lemma_merge_field_prefix(num, wt, rest, b);
            let (m, k) = self.merge_field(num, wt, rest)->Ok_0;
            let t = rest.subrange(k as int, rest.len() as int);
            assert((rest + b).subrange(k as int, (rest + b).len() as int) =~= t + b);
            m.lemma_stream_prefix(t, b, rem - (n + k));
        }
    }

    proof fn lemma_merge_field_prefix(self, num: u32, wt: u32, s: Seq<u8>, b: Seq<u8>)
        requires
            self.merge_field(num, wt, s) is Ok,
        ensures
            self.merge_field(num, wt, s + b) == self.merge_field(num, wt, s),
        
    {
        reveal(EnumOptionsModel::merge_field);
        lemma_values_prefix(s, b);
        lemma_len_bounds(s);
        if num == 7 {
            match parse_varint(s) {
                Ok((l, m)) => if 0 < m <= s.len() {
                    let t = s.subrange(m as int, s.len() as int);
                    assert((s + b).subrange(m as int, (s + b).len() as int) =~= t + b);
                    if self.features.decode_stream(t, l as int) is Ok {
                        self.features.lemma_stream_prefix(t, b, l as int);
                    }
                },
                Err(e) => {},
            }
        }
        if num == 999 {
            match parse_varint(s) {
                Ok((l, m)) => if 0 < m <= s.len() {
                    let t = s.subrange(m as int, s.len() as int);
                    assert((s + b).subrange(m as int, (s + b).len() as int) =~= t + b);
                    if pb::UninterpretedOption_::UninterpretedOptionModel::empty().decode_stream(t, l as int) is Ok {
                        pb::UninterpretedOption_::UninterpretedOptionModel::empty().lemma_stream_prefix(t, b, l as int);
                    }
                },
                Err(e) => {},
            }
        }
    }

    /// Reading exactly `r1` bytes of fields, then `r2` more, is reading while fewer than
    /// `r1 + r2` bytes have been read.
    proof fn lemma_stream_split(self, s: Seq<u8>, r1: int, r2: int)
        requires
            r1 >= 0,
            r2 >= 0,
            self.decode_stream(s, r1) matches Ok((m, c)) && c == r1,
        ensures
            self.decode_stream(s, r1 + r2) == shift_consumed(
                self.decode_stream(s, r1)->Ok_0.0.decode_stream(s.subrange(r1, s.len() as int), r2),
                r1 as nat,
            ),
        decreases s.len(),
    {
        if r1 > 0 {
            let (num, wt, n) = parse_tag(s)->Ok_0;
            let rest = s.subrange(n as int, s.len() as int);
            let (m, k) = self.merge_field(num, wt, rest)->Ok_0;
            let t = rest.subrange(k as int, rest.len() as int);
            m.lemma_stream_bounds(t, r1 - (n + k));
            assert(t.subrange(r1 - (n + k), t.len() as int) =~= s.subrange(r1, s.len() as int));
            m.lemma_stream_split(t, r1 - (n + k), r2);
        } else {
            assert(s.subrange(0, s.len() as int) =~= s);
        }
    }

    /// Decoding is merging: when the fields of `a` merge into the message without error,
    /// merging `a` followed by `b` gives what merging `b` into that result gives.
    pub proof fn lemma_merge_from_concat(self, a: Seq<u8>, b: Seq<u8>)
        requires
            self.merge_from(a) is Ok,
        ensures
            self.merge_from(a + b) == self.merge_from(a)->Ok_0.merge_from(b),
    {
        self.lemma_stream_bounds(a, a.len() as int);
        self.lemma_stream_prefix(a, b, a.len() as int);
        assert((a + b).len() == a.len() + b.len());
        self.lemma_stream_split(a + b, a.len() as int, b.len() as int);
        assert((a + b).subrange(a.len() as int, (a + b).len() as int) =~= b);
    }

    proof fn lemma_single_field(self, s: Seq<u8>, num: u32, wt: u32, n: nat)
        requires
            parse_tag(s) == Ok::<(u32, u32, nat), DecodeError>((num, wt, n)),
            num != 0,
            self.merge_field(num, wt, s.subrange(n as int, s.len() as int)) matches Ok((m, k)) && n + k == s.len(),
        ensures
            self.merge_from(s) == Ok::<EnumOptionsModel, DecodeError>(self.merge_field(num, wt, s.subrange(n as int, s.len() as int))->Ok_0.0),
    {
        lemma_tag_bounds(s);
        let rest = s.subrange(n as int, s.len() as int);
        let (m, k) = self.merge_field(num, wt, rest)->Ok_0;
        assert(rest.subrange(k as int, rest.len() as int) =~= Seq::<u8>::empty());
        assert(m.decode_stream(rest.subrange(k as int, rest.len() as int), s.len() - (n + k)) == Ok::<
            (EnumOptionsModel, nat),
            DecodeError,
        >((m, 0)));
    }

    /// A field numbered 2 holds `allow_alias`: decoding a buffer that holds just such a field,
    /// whatever its wire type, sets `allow_alias` to whether the varint is nonzero, marks it present,
    /// and leaves every other field as it was.
    pub proof fn lemma_decode_allow_alias(self, s: Seq<u8>, wt: u32, n: nat, v: u64, k: nat)
        requires
            parse_tag(s) == Ok::<(u32, u32, nat), DecodeError>((2, wt, n)),
            parse_varint(s.subrange(n as int, s.len() as int)) == Ok::<(u64, nat), DecodeError>((v, k)),
            n + k == s.len(),
        ensures
            self.merge_from(s) == Ok::<EnumOptionsModel, DecodeError>((EnumOptionsModel { allow_alias: v != 0, _has: self._has.update(0, true), ..self })),
    {
        reveal(EnumOptionsModel::merge_field);
        self.lemma_single_field(s, 2, wt, n);
    }

    /// A field numbered 3 holds `deprecated`: decoding a buffer that holds just such a field,
    /// whatever its wire type, sets `deprecated` to whether the varint is nonzero, marks it present,
    /// and leaves every other field as it was.
    pub proof fn lemma_decode_deprecated(self, s: Seq<u8>, wt: u32, n: nat, v: u64, k: nat)
        requires
            parse_tag(s) == Ok::<(u32, u32, nat), DecodeError>((3, wt, n)),
            parse_varint(s.subrange(n as int, s.len() as int)) == Ok::<(u64, nat), DecodeError>((v, k)),
            n + k == s.len(),
        ensures
            self.merge_from(s) == Ok::<EnumOptionsModel, DecodeError>((EnumOptionsModel { deprecated: v != 0, _has: self._has.update(1, true), ..self })),
    {
        reveal(EnumOptionsModel::merge_field);
        self.lemma_single_field(s, 3, wt, n);
    }

    /// A field numbered 6 holds `deprecated_legacy_json_field_conflicts`: decoding a buffer that holds just such a field,
    /// whatever its wire type, sets `deprecated_legacy_json_field_conflicts` to whether the varint is nonzero, marks it present,
    /// and leaves every other field as it was.
    pub proof fn lemma_decode_deprecated_legacy_json_field_conflicts(self, s: Seq<u8>, wt: u32, n: nat, v: u64, k: nat)
        requires
            parse_tag(s) == Ok::<(u32, u32, nat), DecodeError>((6, wt, n)),
            parse_varint(s.subrange(n as int, s.len() as int)) == Ok::<(u64, nat), DecodeError>((v, k)),
            n + k == s.len(),
        ensures
            self.merge_from(s) == Ok::<EnumOptionsModel, DecodeError>((EnumOptionsModel { deprecated_legacy_json_field_conflicts: v != 0, _has: self._has.update(2, true), ..self })),
    {
        reveal(EnumOptionsModel::merge_field);
        self.lemma_single_field(s, 6, wt, n);
    }

    /// A field numbered 7 holds `features`: decoding a buffer that holds just such a field,
    /// whatever its wire type, merges its payload into `features`, marks it present,
    /// and leaves every other field as it was.
    pub proof fn lemma_decode_features(self, s: Seq<u8>, wt: u32, n: nat, l: u64, m: nat, x: pb::FeatureSet_::FeatureSetModel)
        requires
            parse_tag(s) == Ok::<(u32, u32, nat), DecodeError>((7, wt, n)),
            parse_varint(s.subrange(n as int, s.len() as int)) == Ok::<(u64, nat), DecodeError>((l, m)),
            n + m + l == s.len(),
            self.features.merge_from(s.subrange((n + m) as int, s.len() as int)) == Ok::<pb::FeatureSet_::FeatureSetModel, DecodeError>(x),
        ensures
            self.merge_from(s) == Ok::<EnumOptionsModel, DecodeError>((EnumOptionsModel { features: x, _has: self._has.update(3, true), ..self })),
    {
        reveal(EnumOptionsModel::merge_field);
        lemma_tag_bounds(s);
        lemma_varint_bounds(s.subrange(n as int, s.len() as int));
        assert(s.subrange(n as int, s.len() as int).subrange(m as int, s.subrange(n as int, s.len() as int).len() as int) =~= s.subrange((n + m) as int, s.len() as int));
        self.features.lemma_stream_bounds(s.subrange((n + m) as int, s.len() as int), l as int);
        self.lemma_single_field(s, 7, wt, n);
    }

    /// A field numbered 999 holds `uninterpreted_option`: decoding a buffer that holds just such a field,
    /// whatever its wire type, decodes its payload as a new message and appends it to `uninterpreted_option`,
    /// and leaves every other field as it was.
    pub proof fn lemma_decode_uninterpreted_option(self, s: Seq<u8>, wt: u32, n: nat, l: u64, m: nat, x: pb::UninterpretedOption_::UninterpretedOptionModel)
        requires
            parse_tag(s) == Ok::<(u32, u32, nat), DecodeError>((999, wt, n)),
            parse_varint(s.subrange(n as int, s.len() as int)) == Ok::<(u64, nat), DecodeError>((l, m)),
            n + m + l == s.len(),
            pb::UninterpretedOption_::UninterpretedOptionModel::empty().merge_from(s.subrange((n + m) as int, s.len() as int)) == Ok::<pb::UninterpretedOption_::UninterpretedOptionModel, DecodeError>(x),
        ensures
            self.merge_from(s) == Ok::<EnumOptionsModel, DecodeError>((EnumOptionsModel { uninterpreted_option: self.uninterpreted_option.push(x), ..self })),
    {
        reveal(EnumOptionsModel::merge_field);
        lemma_tag_bounds(s);
        lemma_varint_bounds(s.subrange(n as int, s.len() as int));
        assert(s.subrange(n as int, s.len() as int).subrange(m as int, s.subrange(n as int, s.len() as int).len() as int) =~= s.subrange((n + m) as int, s.len() as int));
        pb::UninterpretedOption_::UninterpretedOptionModel::empty().lemma_stream_bounds(s.subrange((n + m) as int, s.len() as int), l as int);
        self.lemma_single_field(s, 999, wt, n);
    }

    /// A field whose number this message does not define is skipped by its wire type:
    /// decoding a buffer that holds just such a field leaves the message as it was.
    pub proof fn lemma_decode_unknown(self, s: Seq<u8>, num: u32, wt: u32, n: nat, k: nat)
        requires
            parse_tag(s) == Ok::<(u32, u32, nat), DecodeError>((num, wt, n)),
            num != 0,
            num != 2 && num != 3 && num != 6 && num != 7 && num != 999,
            skip_len(s.subrange(n as int, s.len() as int), wt) == Ok::<nat, DecodeError>(k),
            n + k == s.len(),
        ensures
            self.merge_from(s) == Ok::<EnumOptionsModel, DecodeError>(self),
    {
        reveal(EnumOptionsModel::merge_field);
        self.lemma_single_field(s, num, wt, n);
    }
}

impl Default for EnumOptions {
    fn default() -> (r: Self)
        ensures
            r@ == EnumOptionsModel::empty(),
    {
        let r = EnumOptions {
            allow_alias: false,
            deprecated: false,
            deprecated_legacy_json_field_conflicts: false,
            features: pb::FeatureSet_::FeatureSet::default(),
            uninterpreted_option: Vec::new(),
            _has: _Hazzer::default(),
        };
        assert(r@ =~= EnumOptionsModel::empty());
        r
    }
}

impl EnumOptions {
    ///Return a reference to `allow_alias` as an `Option`
    #[inline]
    pub fn allow_alias(&self) -> (r: Option<&bool>)
        ensures
            r == (if self._has@[0] {
                Some(&self.allow_alias)
            } else {
                None
            }),
    {
        if self._has.allow_alias() {
            Some(&self.allow_alias)
        } else {
            None
        }
    }

    ///Return a mutable reference to `allow_alias` as an `Option`
    #[inline]
    pub fn mut_allow_alias(&mut self) -> (r: Option<&mut bool>)
        ensures
            old(self)._has@[0] ==> r is Some && *r->0 == old(self).allow_alias && final(self).allow_alias
                == *final(r->0) && *final(self) == (EnumOptions { allow_alias: final(self).allow_alias, ..*old(self) }),
            !old(self)._has@[0] ==> r is None && *final(self) == *old(self),
    {
        if self._has.allow_alias() {
            Some(&mut self.allow_alias)
        } else {
            None
        }
    }

    ///Set the value and presence of `allow_alias`
    #[inline]
    pub fn set_allow_alias(&mut self, value: bool) -> (r: &mut Self)
        ensures
            r._has@ == old(self)._has@.update(0, true),
            *r == (EnumOptions { allow_alias: value, _has: r._has, ..*old(self) }),
            *final(self) == *final(r),
    {
        self._has.set_allow_alias();
        self.allow_alias = value;
        self
    }

    ///Clear the presence of `allow_alias`
    #[inline]
    pub fn clear_allow_alias(&mut self) -> (r: &mut Self)
        ensures
            r._has@ == old(self)._has@.update(0, false),
            *r == (EnumOptions { _has: r._has, ..*old(self) }),
            *final(self) == *final(r),
    {
        self._has.clear_allow_alias();
        self
    }

    ///Take the value of `allow_alias` and clear its presence
    #[inline]
    pub fn take_allow_alias(&mut self) -> (r: Option<bool>)
        ensures
            r == (if old(self)._has@[0] {
                Some(old(self).allow_alias)
            } else {
                None
            }),
            final(self)._has@ == old(self)._has@.update(0, false),
            old(self)._has@[0] ==> !final(self).allow_alias,
            !old(self)._has@[0] ==> final(self).allow_alias == old(self).allow_alias,
            *final(self) == (EnumOptions { allow_alias: final(self).allow_alias, _has: final(self)._has, ..*old(self) }),
    {
        let val = if self._has.allow_alias() {
            let mut v: bool = false;
            std::mem::swap(&mut self.allow_alias, &mut v);
            Some(v)
        } else {
            None
        };
        self._has.clear_allow_alias();
        val
    }

    ///Builder method that sets the value of `allow_alias`. Useful for initializing the message.
    #[inline]
    pub fn init_allow_alias(self, value: bool) -> (r: Self)
        ensures
            r._has@ == self._has@.update(0, true),
            r == (EnumOptions { allow_alias: value, _has: r._has, ..self }),
    {
        let mut s = self;
        s.set_allow_alias(value);
        s
    }

    ///Return a reference to `deprecated` as an `Option`
    #[inline]
    pub fn deprecated(&self) -> (r: Option<&bool>)
        ensures
            r == (if self._has@[1] {
                Some(&self.deprecated)
            } else {
                None
            }),
    {
        if self._has.deprecated() {
            Some(&self.deprecated)
        } else {
            None
        }
    }

    ///Return a mutable reference to `deprecated` as an `Option`
    #[inline]
    pub fn mut_deprecated(&mut self) -> (r: Option<&mut bool>)
        ensures
            old(self)._has@[1] ==> r is Some && *r->0 == old(self).deprecated && final(self).deprecated
                == *final(r->0) && *final(self) == (EnumOptions { deprecated: final(self).deprecated, ..*old(self) }),
            !old(self)._has@[1] ==> r is None && *final(self) == *old(self),
    {
        if self._has.deprecated() {
            Some(&mut self.deprecated)
        } else {
            None
        }
    }

    ///Set the value and presence of `deprecated`
    #[inline]
    pub fn set_deprecated(&mut self, value: bool) -> (r: &mut Self)
        ensures
            r._has@ == old(self)._has@.update(1, true),
            *r == (EnumOptions { deprecated: value, _has: r._has, ..*old(self) }),
            *final(self) == *final(r),
    {
        self._has.set_deprecated();
        self.deprecated = value;
        self
    }

    ///Clear the presence of `deprecated`
    #[inline]
    pub fn clear_deprecated(&mut self) -> (r: &mut Self)
        ensures
            r._has@ == old(self)._has@.update(1, false),
            *r == (EnumOptions { _has: r._has, ..*old(self) }),
            *final(self) == *final(r),
    {
        self._has.clear_deprecated();
        self
    }

    ///Take the value of `deprecated` and clear its presence
    #[inline]
    pub fn take_deprecated(&mut self) -> (r: Option<bool>)
        ensures
            r == (if old(self)._has@[1] {
                Some(old(self).deprecated)
            } else {
                None
            }),
            final(self)._has@ == old(self)._has@.update(1, false),
            old(self)._has@[1] ==> !final(self).deprecated,
            !old(self)._has@[1] ==> final(self).deprecated == old(self).deprecated,
            *final(self) == (EnumOptions { deprecated: final(self).deprecated, _has: final(self)._has, ..*old(self) }),
    {
        let val = if self._has.deprecated() {
            let mut v: bool = false;
            std::mem::swap(&mut self.deprecated, &mut v);
            Some(v)
        } else {
            None
        };
        self._has.clear_deprecated();
        val
    }

    ///Builder method that sets the value of `deprecated`. Useful for initializing the message.
    #[inline]
    pub fn init_deprecated(self, value: bool) -> (r: Self)
        ensures
            r._has@ == self._has@.update(1, true),
            r == (EnumOptions { deprecated: value, _has: r._has, ..self }),
    {
        let mut s = self;
        s.set_deprecated(value);
        s
    }

    ///Return a reference to `deprecated_legacy_json_field_conflicts` as an `Option`
    #[inline]
    pub fn deprecated_legacy_json_field_conflicts(&self) -> (r: Option<&bool>)
        ensures
            r == (if self._has@[2] {
                Some(&self.deprecated_legacy_json_field_conflicts)
            } else {
                None
            }),
    {
        if self._has.deprecated_legacy_json_field_conflicts() {
            Some(&self.deprecated_legacy_json_field_conflicts)
        } else {
            None
        }
    }

    ///Return a mutable reference to `deprecated_legacy_json_field_conflicts` as an `Option`
    #[inline]
    pub fn mut_deprecated_legacy_json_field_conflicts(&mut self) -> (r: Option<&mut bool>)
        ensures
            old(self)._has@[2] ==> r is Some && *r->0 == old(self).deprecated_legacy_json_field_conflicts && final(self).deprecated_legacy_json_field_conflicts
                == *final(r->0) && *final(self) == (EnumOptions { deprecated_legacy_json_field_conflicts: final(self).deprecated_legacy_json_field_conflicts, ..*old(self) }),
            !old(self)._has@[2] ==> r is None && *final(self) == *old(self),
    {
        if self._has.deprecated_legacy_json_field_conflicts() {
            Some(&mut self.deprecated_legacy_json_field_conflicts)
        } else {
            None
        }
    }

    ///Set the value and presence of `deprecated_legacy_json_field_conflicts`
    #[inline]
    pub fn set_deprecated_legacy_json_field_conflicts(&mut self, value: bool) -> (r: &mut Self)
        ensures
            r._has@ == old(self)._has@.update(2, true),
            *r == (EnumOptions { deprecated_legacy_json_field_conflicts: value, _has: r._has, ..*old(self) }),
            *final(self) == *final(r),
    {
        self._has.set_deprecated_legacy_json_field_conflicts();
        self.deprecated_legacy_json_field_conflicts = value;
        self
    }

    ///Clear the presence of `deprecated_legacy_json_field_conflicts`
    #[inline]
    pub fn clear_deprecated_legacy_json_field_conflicts(&mut self) -> (r: &mut Self)
        ensures
            r._has@ == old(self)._has@.update(2, false),
            *r == (EnumOptions { _has: r._has, ..*old(self) }),
            *final(self) == *final(r),
    {
        self._has.clear_deprecated_legacy_json_field_conflicts();
        self
    }

    ///Take the value of `deprecated_legacy_json_field_conflicts` and clear its presence
    #[inline]
    pub fn take_deprecated_legacy_json_field_conflicts(&mut self) -> (r: Option<bool>)
        ensures
            r == (if old(self)._has@[2] {
                Some(old(self).deprecated_legacy_json_field_conflicts)
            } else {
                None
            }),
            final(self)._has@ == old(self)._has@.update(2, false),
            old(self)._has@[2] ==> !final(self).deprecated_legacy_json_field_conflicts,
            !old(self)._has@[2] ==> final(self).deprecated_legacy_json_field_conflicts == old(self).deprecated_legacy_json_field_conflicts,
            *final(self) == (EnumOptions { deprecated_legacy_json_field_conflicts: final(self).deprecated_legacy_json_field_conflicts, _has: final(self)._has, ..*old(self) }),
    {
        let val = if self._has.deprecated_legacy_json_field_conflicts() {
            let mut v: bool = false;
            std::mem::swap(&mut self.deprecated_legacy_json_field_conflicts, &mut v);
            Some(v)
        } else {
            None
        };
        self._has.clear_deprecated_legacy_json_field_conflicts();
        val
    }

    ///Builder method that sets the value of `deprecated_legacy_json_field_conflicts`. Useful for initializing the message.
    #[inline]
    pub fn init_deprecated_legacy_json_field_conflicts(self, value: bool) -> (r: Self)
        ensures
            r._has@ == self._has@.update(2, true),
            r == (EnumOptions { deprecated_legacy_json_field_conflicts: value, _has: r._has, ..self }),
    {
        let mut s = self;
        s.set_deprecated_legacy_json_field_conflicts(value);
        s
    }

    ///Return a reference to `features` as an `Option`
    #[inline]
    pub fn features(&self) -> (r: Option<&pb::FeatureSet_::FeatureSet>)
        ensures
            r == (if self._has@[3] {
                Some(&self.features)
            } else {
                None
            }),
    {
        if self._has.features() {
            Some(&self.features)
        } else {
            None
        }
    }

    ///Return a mutable reference to `features` as an `Option`
    #[inline]
    pub fn mut_features(&mut self) -> (r: Option<&mut pb::FeatureSet_::FeatureSet>)
        ensures
            old(self)._has@[3] ==> r is Some && *r->0 == old(self).features && final(self).features
                == *final(r->0) && *final(self) == (EnumOptions { features: final(self).features, ..*old(self) }),
            !old(self)._has@[3] ==> r is None && *final(self) == *old(self),
    {
        if self._has.features() {
            Some(&mut self.features)
        } else {
            None
        }
    }

    ///Set the value and presence of `features`
    #[inline]
    pub fn set_features(&mut self, value: pb::FeatureSet_::FeatureSet) -> (r: &mut Self)
        ensures
            r._has@ == old(self)._has@.update(3, true),
            *r == (EnumOptions { features: value, _has: r._has, ..*old(self) }),
            *final(self) == *final(r),
    {
        self._has.set_features();
        self.features = value;
        self
    }

    ///Clear the presence of `features`
    #[inline]
    pub fn clear_features(&mut self) -> (r: &mut Self)
        ensures
            r._has@ == old(self)._has@.update(3, false),
            *r == (EnumOptions { _has: r._has, ..*old(self) }),
            *final(self) == *final(r),
    {
        self._has.clear_features();
        self
    }

    ///Take the value of `features` and clear its presence
    #[inline]
    pub fn take_features(&mut self) -> (r: Option<pb::FeatureSet_::FeatureSet>)
        ensures
            r == (if old(self)._has@[3] {
                Some(old(self).features)
            } else {
                None
            }),
            final(self)._has@ == old(self)._has@.update(3, false),
            old(self)._has@[3] ==> final(self).features@ == pb::FeatureSet_::FeatureSetModel::empty(),
            !old(self)._has@[3] ==> final(self).features == old(self).features,
            *final(self) == (EnumOptions { features: final(self).features, _has: final(self)._has, ..*old(self) }),
    {
        let val = if self._has.features() {
            let mut v: pb::FeatureSet_::FeatureSet = pb::FeatureSet_::FeatureSet::default();
            std::mem::swap(&mut self.features, &mut v);
            Some(v)
        } else {
            None
        };
        self._has.clear_features();
        val
    }

    ///Builder method that sets the value of `features`. Useful for initializing the message.
    #[inline]
    pub fn init_features(self, value: pb::FeatureSet_::FeatureSet) -> (r: Self)
        ensures
            r._has@ == self._has@.update(3, true),
            r == (EnumOptions { features: value, _has: r._has, ..self }),
    {
        let mut s = self;
        s.set_features(value);
        s
    }

    /// Merges the value of the field numbered `num`, with wire type `wt`, that starts at
    /// `pos` in `buf` into the message, and gives the position just past the value.
    pub fn merge_field(&mut self, num: u32, wt: u32, buf: &[u8], pos: usize) -> (r: Result<usize, DecodeError>)
        requires
            pos <= buf.len(),
        ensures
            match old(self)@.merge_field(num, wt, buf@.subrange(pos as int, buf.len() as int)) {
                Ok((m, k)) => r matches Ok(next) && next == pos + k && final(self)@ == m,
                Err(e) => r == Err::<usize, DecodeError>(e),
            },
            r matches Ok(next) ==> next <= buf.len(),
            r is Err ==> final(self)@ == old(self)@.merge_field_partial(num, wt, buf@.subrange(pos as int, buf.len() as int)),
    {
        proof {
            reveal(EnumOptionsModel::merge_field);
        }
        match num {
            2 => self.merge_allow_alias_field(wt, buf, pos),
            3 => self.merge_deprecated_field(wt, buf, pos),
            6 => self.merge_deprecated_legacy_json_field_conflicts_field(wt, buf, pos),
            7 => self.merge_features_field(wt, buf, pos),
            999 => self.merge_uninterpreted_option_field(wt, buf, pos),
            _ => skip_value(buf, pos, buf.len(), wt),
        }
    }

    /// Merges the value of a field numbered 2, starting at `pos` in `buf`, into `allow_alias`.
    fn merge_allow_alias_field(&mut self, wt: u32, buf: &[u8], pos: usize) -> (r: Result<usize, DecodeError>)
        requires
            pos <= buf.len(),
        ensures
            match old(self)@.merge_field(2, wt, buf@.subrange(pos as int, buf.len() as int)) {
                Ok((m, k)) => r matches Ok(next) && next == pos + k && final(self)@ == m,
                Err(e) => r == Err::<usize, DecodeError>(e),
            },
            r matches Ok(next) ==> next <= buf.len(),
            r is Err ==> final(self)@ == old(self)@.merge_field_partial(2, wt, buf@.subrange(pos as int, buf.len() as int)),
    {
        proof {
            reveal(EnumOptionsModel::merge_field);
        }
        let ghost m0 = self@;
        let end = buf.len();
        match read_varint(buf, pos, end) {
            Ok((v, next)) => {
                self.allow_alias = v != 0;
                self._has.set_allow_alias();
                proof {
                    assert(self@ =~= (EnumOptionsModel { allow_alias: v != 0, _has: m0._has.update(0, true), ..m0 }));
                }
                Ok(next)
            },
            Err(e) => Err(e),
        }
    }

    /// Merges the value of a field numbered 3, starting at `pos` in `buf`, into `deprecated`.
    fn merge_deprecated_field(&mut self, wt: u32, buf: &[u8], pos: usize) -> (r: Result<usize, DecodeError>)
        requires
            pos <= buf.len(),
        ensures
            match old(self)@.merge_field(3, wt, buf@.subrange(pos as int, buf.len() as int)) {
                Ok((m, k)) => r matches Ok(next) && next == pos + k && final(self)@ == m,
                Err(e) => r == Err::<usize, DecodeError>(e),
            },
            r matches Ok(next) ==> next <= buf.len(),
            r is Err ==> final(self)@ == old(self)@.merge_field_partial(3, wt, buf@.subrange(pos as int, buf.len() as int)),
    {
        proof {
            reveal(EnumOptionsModel::merge_field);
        }
        let ghost m0 = self@;
        let end = buf.len();
        match read_varint(buf, pos, end) {
            Ok((v, next)) => {
                self.deprecated = v != 0;
                self._has.set_deprecated();
                proof {
                    assert(self@ =~= (EnumOptionsModel { deprecated: v != 0, _has: m0._has.update(1, true), ..m0 }));
                }
                Ok(next)
            },
            Err(e) => Err(e),
        }
    }

    /// Merges the value of a field numbered 6, starting at `pos` in `buf`, into `deprecated_legacy_json_field_conflicts`.
    fn merge_deprecated_legacy_json_field_conflicts_field(&mut self, wt: u32, buf: &[u8], pos: usize) -> (r: Result<usize, DecodeError>)
        requires
            pos <= buf.len(),
        ensures
            match old(self)@.merge_field(6, wt, buf@.subrange(pos as int, buf.len() as int)) {
                Ok((m, k)) => r matches Ok(next) && next == pos + k && final(self)@ == m,
                Err(e) => r == Err::<usize, DecodeError>(e),
            },
            r matches Ok(next) ==> next <= buf.len(),
            r is Err ==> final(self)@ == old(self)@.merge_field_partial(6, wt, buf@.subrange(pos as int, buf.len() as int)),
    {
        proof {
            reveal(EnumOptionsModel::merge_field);
        }
        let ghost m0 = self@;
        let end = buf.len();
        match read_varint(buf, pos, end) {
            Ok((v, next)) => {
                self.deprecated_legacy_json_field_conflicts = v != 0;
                self._has.set_deprecated_legacy_json_field_conflicts();
                proof {
                    assert(self@ =~= (EnumOptionsModel { deprecated_legacy_json_field_conflicts: v != 0, _has: m0._has.update(2, true), ..m0 }));
                }
                Ok(next)
            },
            Err(e) => Err(e),
        }
    }

    /// Merges the value of a field numbered 7, starting at `pos` in `buf`, into `features`.
    fn merge_features_field(&mut self, wt: u32, buf: &[u8], pos: usize) -> (r: Result<usize, DecodeError>)
        requires
            pos <= buf.len(),
        ensures
            match old(self)@.merge_field(7, wt, buf@.subrange(pos as int, buf.len() as int)) {
                Ok((m, k)) => r matches Ok(next) && next == pos + k && final(self)@ == m,
                Err(e) => r == Err::<usize, DecodeError>(e),
            },
            r matches Ok(next) ==> next <= buf.len(),
            r is Err ==> final(self)@ == old(self)@.merge_field_partial(7, wt, buf@.subrange(pos as int, buf.len() as int)),
    {
        proof {
            reveal(EnumOptionsModel::merge_field);
        }
        let ghost m0 = self@;
        let end = buf.len();
        match read_varint(buf, pos, end) {
            Ok((l, q)) => {
                proof {
                    assert(buf@.subrange(pos as int, end as int).subrange((q - pos) as int, (end - pos) as int) =~= buf@.subrange(q as int, end as int));
                }
                match self.features.decode(buf, q, l) {
                    Ok(next) => {
                        self._has.set_features();
                        proof {
                            assert(self@ =~= (EnumOptionsModel { features: self.features@, _has: m0._has.update(3, true), ..m0 }));
                        }
                        Ok(next)
                    },
                    Err(e) => {
                        proof {
                            assert(self@ =~= (EnumOptionsModel { features: self.features@, ..m0 }));
                        }
                        Err(e)
                    },
                }
            },
            Err(e) => Err(e),
        }
    }

    /// Merges the value of a field numbered 999, starting at `pos` in `buf`, into `uninterpreted_option`.
    fn merge_uninterpreted_option_field(&mut self, wt: u32, buf: &[u8], pos: usize) -> (r: Result<usize, DecodeError>)
        requires
            pos <= buf.len(),
        ensures
            match old(self)@.merge_field(999, wt, buf@.subrange(pos as int, buf.len() as int)) {
                Ok((m, k)) => r matches Ok(next) && next == pos + k && final(self)@ == m,
                Err(e) => r == Err::<usize, DecodeError>(e),
            },
            r matches Ok(next) ==> next <= buf.len(),
            r is Err ==> final(self)@ == old(self)@.merge_field_partial(999, wt, buf@.subrange(pos as int, buf.len() as int)),
    {
        proof {
            reveal(EnumOptionsModel::merge_field);
        }
        let ghost m0 = self@;
        let end = buf.len();
        match read_varint(buf, pos, end) {
            Ok((l, q)) => {
                proof {
                    assert(buf@.subrange(pos as int, end as int).subrange((q - pos) as int, (end - pos) as int) =~= buf@.subrange(q as int, end as int));
                }
                let mut v = pb::UninterpretedOption_::UninterpretedOption::default();
                match v.decode(buf, q, l) {
                    Ok(next) => {
                        let ghost vm = v@;
                        self.uninterpreted_option.push(v);
                        proof {
                            assert(self@ =~= (EnumOptionsModel { uninterpreted_option: m0.uninterpreted_option.push(vm), ..m0 }));
                        }
                        Ok(next)
                    },
                    Err(e) => Err(e),
                }
            },
            Err(e) => Err(e),
        }
    }

    /// Reads fields from `buf`, from `start` on, into the message while fewer than `len`
    /// bytes have been read, and gives the position just past the last field read.
    #[verifier::rlimit(40)]
    pub fn decode(&mut self, buf: &[u8], start: usize, len: u64) -> (r: Result<usize, DecodeError>)
        requires
            start <= buf.len(),
        ensures
            match old(self)@.decode_stream(buf@.subrange(start as int, buf.len() as int), len as int) {
                Ok((m, c)) => r matches Ok(next) && next == start + c && final(self)@ == m,
                Err(e) => r == Err::<usize, DecodeError>(e),
            },
            r matches Ok(next) ==> next <= buf.len(),
            r is Err ==> final(self)@ == old(self)@.until_error_stream(
                buf@.subrange(start as int, buf.len() as int),
                len as int,
            ),
    {
        let mut pos = start;
        while ((pos - start) as u64) < len
            invariant
                start <= pos <= buf.len(),
                old(self)@.decode_stream(buf@.subrange(start as int, buf.len() as int), len as int)
                    == shift_consumed(
                    self@.decode_stream(buf@.subrange(pos as int, buf.len() as int), len - (pos - start)),
                    (pos - start) as nat,
                ),
                old(self)@.until_error_stream(buf@.subrange(start as int, buf.len() as int), len as int)
                    == self@.until_error_stream(buf@.subrange(pos as int, buf.len() as int), len - (pos - start)),
            decreases buf.len() - pos,
        {
            let ghost s = buf@.subrange(pos as int, buf.len() as int);
            let (num, wt, p) = match read_tag(buf, pos, buf.len()) {
                Ok(x) => x,
                Err(e) => return Err(e),
            };
            if num == 0 {
                return Err(DecodeError::ZeroField);
            }
            proof {
                lemma_tag_bounds(s);
                assert(s.subrange((p - pos) as int, s.len() as int) =~= buf@.subrange(p as int, buf.len() as int));
            }
            let next = match self.merge_field(num, wt, buf, p) {
                Ok(x) => x,
                Err(e) => return Err(e),
            };
            proof {
                let rest = buf@.subrange(p as int, buf.len() as int);
                assert(rest.subrange((next - p) as int, rest.len() as int) =~= buf@.subrange(
                    next as int,
                    buf.len() as int,
                ));
            }
            pos = next;
        }
        Ok(pos)
    }

    /// Merges the fields encoded in `bytes` into the message.
    pub fn decode_from_bytes(&mut self, bytes: &[u8]) -> (r: Result<(), DecodeError>)
        ensures
            match old(self)@.merge_from(bytes@) {
                Ok(m) => r is Ok && final(self)@ == m,
                Err(e) => r == Err::<(), DecodeError>(e),
            },
            r is Err ==> final(self)@ == old(self)@.merge_until_error(bytes@),
    {
        assert(bytes@.subrange(0, bytes@.len() as int) =~= bytes@);
        match self.decode(bytes, 0, bytes.len() as u64) {
            Ok(_) => Ok(()),
            Err(e) => Err(e),
        }
    }
}

} // verus!
