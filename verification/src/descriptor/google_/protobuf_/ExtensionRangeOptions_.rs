//! `ExtensionRangeOptions`, with its nested types and its presence bits.
use vstd::prelude::*;
use vstd::utf8::{decode_utf8, valid_utf8};
use crate::bits::{flags_of, lemma_flags_clear, lemma_flags_get, lemma_flags_set, lemma_flags_zero};
use crate::descriptor::google_::protobuf_ as pb;
use crate::wire::{
    copy_bytes, lemma_len_bounds, lemma_varint_bounds, lemma_tag_bounds, lemma_values_prefix, parse_fixed64, parse_len, parse_packed_i32,
    parse_string, parse_tag, parse_varint, read_fixed64, read_len, read_packed_i32, read_string,
    read_tag, read_varint, shift_consumed, skip_len, skip_value, to_i32, to_i64, varint_as_i32,
    varint_as_i64, DecodeError, WIRE_TYPE_LEN,
};

pub mod Declaration_;
pub use Declaration_::Declaration;

verus! {

#[derive(Debug, Clone, Copy, PartialEq, Eq, Structural, Hash)]
pub struct VerificationState(pub i32);

impl VerificationState {
    /// The value `0`.
    pub fn Declaration() -> (r: Self)
        ensures
            r == VerificationState(0),
    {
        Self(0)
    }

    /// The value `1`.
    pub fn Unverified() -> (r: Self)
        ensures
            r == VerificationState(1),
    {
        Self(1)
    }
}

impl Default for VerificationState {
    fn default() -> (r: Self)
        ensures
            r == VerificationState(0),
    {
        Self(0)
    }
}

impl From<i32> for VerificationState {
    fn from(val: i32) -> (r: Self) {
        Self(val)
    }
}

impl vstd::std_specs::convert::FromSpecImpl<i32> for VerificationState {
    open spec fn obeys_from_spec() -> bool {
        true
    }

    open spec fn from_spec(v: i32) -> Self {
        VerificationState(v)
    }
}

/// Presence bits of the optional fields of `ExtensionRangeOptions`: bit `i % 8` of byte `i / 8` is flag `i`.
#[derive(Debug, PartialEq)]
pub struct _Hazzer(pub [u8; 1]);

impl View for _Hazzer {
    type V = Seq<bool>;

    open spec fn view(&self) -> Seq<bool> {
        flags_of(self.0@)
    }
}

impl Default for _Hazzer {
    fn default() -> (r: Self)
        ensures
            r@ == Seq::new(8, |i: int| false),
    {
        let r = _Hazzer([0u8]);
        proof {
            lemma_flags_zero(r.0@);
            assert(r@ =~= Seq::new(8, |i: int| false));
        }
        r
    }
}

impl Clone for _Hazzer {
    fn clone(&self) -> (r: Self)
        ensures
            r == *self,
    {
        _Hazzer(self.0)
    }
}

impl _Hazzer {
    ///Query presence of `features`
    #[inline]
    pub fn features(&self) -> (r: bool)
        ensures
            r == self@[0],
    {
        proof {
            lemma_flags_get(self.0@, 0, 0);
        }
        (self.0[0] & (1u8 << 0u8)) != 0
    }

    ///Set presence of `features`
    #[inline]
    pub fn set_features(&mut self) -> (r: &mut Self)
        ensures
            r@ == old(self)@.update(0, true),
            *final(self) == *final(r),
    {
        let ghost bytes = self.0@;
        self.0[0] = self.0[0] | (1u8 << 0u8);
        proof {
            lemma_flags_set(bytes, self.0@, 0, 0);
        }
        self
    }

    ///Clear presence of `features`
    #[inline]
    pub fn clear_features(&mut self) -> (r: &mut Self)
        ensures
            r@ == old(self)@.update(0, false),
            *final(self) == *final(r),
    {
        let ghost bytes = self.0@;
        self.0[0] = self.0[0] & !(1u8 << 0u8);
        proof {
            lemma_flags_clear(bytes, self.0@, 0, 0);
        }
        self
    }

    ///Builder method that sets the presence of `features`. Useful for initializing the Hazzer.
    #[inline]
    pub fn init_features(self) -> (r: Self)
        ensures
            r@ == self@.update(0, true),
    {
        let mut s = self;
        s.set_features();
        s
    }

    ///Query presence of `verification`
    #[inline]
    pub fn verification(&self) -> (r: bool)
        ensures
            r == self@[1],
    {
        proof {
            lemma_flags_get(self.0@, 0, 1);
        }
        (self.0[0] & (1u8 << 1u8)) != 0
    }

    ///Set presence of `verification`
    #[inline]
    pub fn set_verification(&mut self) -> (r: &mut Self)
        ensures
            r@ == old(self)@.update(1, true),
            *final(self) == *final(r),
    {
        let ghost bytes = self.0@;
        self.0[0] = self.0[0] | (1u8 << 1u8);
        proof {
            lemma_flags_set(bytes, self.0@, 0, 1);
        }
        self
    }

    ///Clear presence of `verification`
    #[inline]
    pub fn clear_verification(&mut self) -> (r: &mut Self)
        ensures
            r@ == old(self)@.update(1, false),
            *final(self) == *final(r),
    {
        let ghost bytes = self.0@;
        self.0[0] = self.0[0] & !(1u8 << 1u8);
        proof {
            lemma_flags_clear(bytes, self.0@, 0, 1);
        }
        self
    }

    ///Builder method that sets the presence of `verification`. Useful for initializing the Hazzer.
    #[inline]
    pub fn init_verification(self) -> (r: Self)
        ensures
            r@ == self@.update(1, true),
    {
        let mut s = self;
        s.set_verification();
        s
    }
}

/// The Protobuf message `google.protobuf.ExtensionRangeOptions`.
#[derive(Debug)]
pub struct ExtensionRangeOptions {
    pub uninterpreted_option: Vec<pb::UninterpretedOption_::UninterpretedOption>,
    pub declaration: Vec<pb::ExtensionRangeOptions_::Declaration_::Declaration>,
    pub features: pb::FeatureSet_::FeatureSet,
    pub verification: pb::ExtensionRangeOptions_::VerificationState,
    pub _has: _Hazzer,
}

/// The value of a `ExtensionRangeOptions` as the contracts see it.
#[verifier::ext_equal]
pub ghost struct ExtensionRangeOptionsModel {
    pub uninterpreted_option: Seq<pb::UninterpretedOption_::UninterpretedOptionModel>,
    pub declaration: Seq<pb::ExtensionRangeOptions_::Declaration_::DeclarationModel>,
    pub features: pb::FeatureSet_::FeatureSetModel,
    pub verification: pb::ExtensionRangeOptions_::VerificationState,
    pub _has: Seq<bool>,
}

impl View for ExtensionRangeOptions {
    type V = ExtensionRangeOptionsModel;

    open spec fn view(&self) -> ExtensionRangeOptionsModel {
        ExtensionRangeOptionsModel {
            uninterpreted_option: self.uninterpreted_option@.map_values(|m: pb::UninterpretedOption_::UninterpretedOption| m@),
            declaration: self.declaration@.map_values(|m: pb::ExtensionRangeOptions_::Declaration_::Declaration| m@),
            features: self.features@,
            verification: self.verification,
            _has: self._has@,
        }
    }
}

impl ExtensionRangeOptionsModel {
    /// The value of a `ExtensionRangeOptions` with no field set.
    pub open spec fn empty() -> ExtensionRangeOptionsModel {
        ExtensionRangeOptionsModel {
            uninterpreted_option: Seq::empty(),
            declaration: Seq::empty(),
            features: pb::FeatureSet_::FeatureSetModel::empty(),
            verification: pb::ExtensionRangeOptions_::VerificationState(0),
            _has: Seq::new(8, |i: int| false),
        }
    }

    /// The message after the value of the field numbered `num`, with wire type `wt`, at the
    /// start of `s` has been merged into it, and the length of that value. A known field is
    /// read as its own type: a later value of a singular field replaces the earlier one, and
    /// a repeated field gains the values at its end. An unknown field is skipped by its wire
    /// type and leaves the message as it was.
    #[verifier::opaque]
    pub open spec fn merge_field(self, num: u32, wt: u32, s: Seq<u8>) -> Result<(ExtensionRangeOptionsModel, nat), DecodeError>
    {
        if num == 999 {
            match parse_varint(s) {
                Ok((l, m)) => if 0 < m <= s.len() {
                    match pb::UninterpretedOption_::UninterpretedOptionModel::empty().decode_stream(s.subrange(m as int, s.len() as int), l as int) {
                        Ok((x, c)) => Ok(((ExtensionRangeOptionsModel { uninterpreted_option: self.uninterpreted_option.push(x), ..self }), m + c)),
                        Err(e) => Err(e),
                    }
                } else {
                    Err(DecodeError::UnexpectedEof)
                },
                Err(e) => Err(e),
            }
        } else if num == 2 {
            match parse_varint(s) {
                Ok((l, m)) => if 0 < m <= s.len() {
                    match pb::ExtensionRangeOptions_::Declaration_::DeclarationModel::empty().decode_stream(s.subrange(m as int, s.len() as int), l as int) {
                        Ok((x, c)) => Ok(((ExtensionRangeOptionsModel { declaration: self.declaration.push(x), ..self }), m + c)),
                        Err(e) => Err(e),
                    }
                } else {
                    Err(DecodeError::UnexpectedEof)
                },
                Err(e) => Err(e),
            }
        } else if num == 50 {
            match parse_varint(s) {
                Ok((l, m)) => if 0 < m <= s.len() {
                    match self.features.decode_stream(s.subrange(m as int, s.len() as int), l as int) {
                        Ok((x, c)) => Ok(((ExtensionRangeOptionsModel { features: x, _has: self._has.update(0, true), ..self }), m + c)),
                        Err(e) => Err(e),
                    }
                } else {
                    Err(DecodeError::UnexpectedEof)
                },
                Err(e) => Err(e),
            }
        } else if num == 3 {
            match parse_varint(s) {
                Ok((v, n)) => Ok(((ExtensionRangeOptionsModel { verification: pb::ExtensionRangeOptions_::VerificationState(varint_as_i32(v)), _has: self._has.update(1, true), ..self }), n)),
                Err(e) => Err(e),
            }
        } else {
            match skip_len(s, wt) {
                Ok(n) => Ok((self, n)),
                Err(e) => Err(e),
            }
        }
    }

    /// The message after its fields have been read from the start of `s` while fewer than
    /// `rem` bytes have been read, and how many bytes were read. Each field is read whole,
    /// so the last one may run past `rem`. A field numbered 0 is refused.
    pub open spec fn decode_stream(self, s: Seq<u8>, rem: int) -> Result<(ExtensionRangeOptionsModel, nat), DecodeError>
        decreases s.len(),
    {
        if rem <= 0 {
            Ok((self, 0))
        } else {
            match parse_tag(s) {
                Err(e) => Err(e),
                Ok((num, wt, n)) => if num == 0 {
                    Err(DecodeError::ZeroField)
                } else if 0 < n <= s.len() {
                    let rest = s.subrange(n as int, s.len() as int);
                    match self.merge_field(num, wt, rest) {
                        Ok((m, k)) => if k <= rest.len() {
                            shift_consumed(
                                m.decode_stream(rest.subrange(k as int, rest.len() as int), rem - (n + k)),
                                n + k,
                            )
                        } else {
                            Err(DecodeError::UnexpectedEof)
                        },
                        Err(e) => Err(e),
                    }
                } else {
                    Err(DecodeError::UnexpectedEof)
                },
            }
        }
    }

    /// The message after every field in `s` has been merged into it, in order: its fields
    /// read from `s` while fewer than `s.len()` bytes have been read.
    pub open spec fn merge_from(self, s: Seq<u8>) -> Result<ExtensionRangeOptionsModel, DecodeError> {
        match self.decode_stream(s, s.len() as int) {
            Ok((m, c)) => Ok(m),
            Err(e) => Err(e),
        }
    }

    /// The message as a failed merge of the field numbered `num`, with wire type `wt`, at
    /// the start of `s` leaves it: a nested message keeps what was read into it before
    /// its own failure, and nothing else changes.
    pub open spec fn merge_field_partial(self, num: u32, wt: u32, s: Seq<u8>) -> ExtensionRangeOptionsModel {
        if num == 50 {
            match parse_varint(s) {
                Ok((l, m)) => if 0 < m <= s.len() {
                    ExtensionRangeOptionsModel { features: self.features.until_error_stream(s.subrange(m as int, s.len() as int), l as int), ..self }
                } else {
                    self
                },
                Err(e) => self,
            }
        } else {
            self
        }
    }

    /// The message after its fields have been read from the start of `s`, as in
    /// `decode_stream`, up to the first one that fails: that one leaves the message as its
    /// failed merge does, and no field after it is read.
    pub open spec fn until_error_stream(self, s: Seq<u8>, rem: int) -> ExtensionRangeOptionsModel
        decreases s.len(),
    {
        if rem <= 0 {
            self
        } else {
            match parse_tag(s) {
                Err(e) => self,
                Ok((num, wt, n)) => if num == 0 {
                    self
                } else if 0 < n <= s.len() {
                    let rest = s.subrange(n as int, s.len() as int);
                    match self.merge_field(num, wt, rest) {
                        Ok((m, k)) => if k <= rest.len() {
                            m.until_error_stream(rest.subrange(k as int, rest.len() as int), rem - (n + k))
                        } else {
                            m
                        },
                        Err(e) => self.merge_field_partial(num, wt, rest),
                    }
                } else {
                    self
                },
            }
        }
    }

    /// The message after the fields of `s` have been merged into it in order, up to the
    /// first one that fails, which leaves the message as its failed merge does. When none
    /// fails, this is what `merge_from` gives.
    pub open spec fn merge_until_error(self, s: Seq<u8>) -> ExtensionRangeOptionsModel {
        self.until_error_stream(s, s.len() as int)
    }

    /// Reading fields reads at most the whole input, and at least `rem` bytes when `rem` is
    /// positive.
    pub proof fn lemma_stream_bounds(self, s: Seq<u8>, rem: int)
        ensures
            self.decode_stream(s, rem) matches Ok((m, c)) ==> c <= s.len() && (rem > 0 ==> c >= rem) && (
            rem <= 0 ==> c == 0),
        decreases s.len(),
    {
        if rem > 0 {
            if let Ok((num, wt, n)) = parse_tag(s) {
                if num != 0 && 0 < n <= s.len() {
                    let rest = s.subrange(n as int, s.len() as int);
                    if let Ok((m, k)) = self.merge_field(num, wt, rest) {
                        if k <= rest.len() {
                            m.lemma_stream_bounds(rest.subrange(k as int, rest.len() as int), rem - (n + k));
                        }
                    }
                }
            }
        }
    }

    /// Fields that can be read from `s` read the same from `s` followed by anything.
    pub proof fn lemma_stream_prefix(self, s: Seq<u8>, b: Seq<u8>, rem: int)
        requires
            self.decode_stream(s, rem) is Ok,
        ensures
            self.decode_stream(s + b, rem) == self.decode_stream(s, rem),
        decreases s.len(),
    {
        if rem > 0 {
            lemma_values_prefix(s, b);
            let (num, wt, n) = parse_tag(s)->Ok_0;
            let rest = s.subrange(n as int, s.len() as int);
            assert((s + b).subrange(n as int, (s + b).len() as int) =~= rest + b);
            self.lemma_merge_field_prefix(num, wt, rest, b);
            let (m, k) = self.merge_field(num, wt, rest)->Ok_0;
            let t = rest.subrange(k as int, rest.len() as int);
            assert((rest + b).subrange(k as int, (rest + b).len() as int) =~= t + b);
            m.lemma_stream_prefix(t, b, rem - (n + k));
        }
    }

    proof fn lemma_merge_field_prefix(self, num: u32, wt: u32, s: Seq<u8>, b: Seq<u8>)
        requires
            self.merge_field(num, wt, s) is Ok,
        ensures
            self.merge_field(num, wt, s + b) == self.merge_field(num, wt, s),
        
    {
        reveal(ExtensionRangeOptionsModel::merge_field);
        lemma_values_prefix(s, b);
        lemma_len_bounds(s);
        if num == 999 {
            match parse_varint(s) {
                Ok((l, m)) => if 0 < m <= s.len() {
                    let t = s.subrange(m as int, s.len() as int);
                    assert((s + b).subrange(m as int, (s + b).len() as int) =~= t + b);
                    if pb::UninterpretedOption_::UninterpretedOptionModel::empty().decode_stream(t, l as int) is Ok {
                        pb::UninterpretedOption_::UninterpretedOptionModel::empty().lemma_stream_prefix(t, b, l as int);
                    }
                },
                Err(e) => {},
            }
        }
        if num == 2 {
            match parse_varint(s) {
                Ok((l, m)) => if 0 < m <= s.len() {
                    let t = s.subrange(m as int, s.len() as int);
                    assert((s + b).subrange(m as int, (s + b).len() as int) =~= t + b);
                    if pb::ExtensionRangeOptions_::Declaration_::DeclarationModel::empty().decode_stream(t, l as int) is Ok {
                        pb::ExtensionRangeOptions_::Declaration_::DeclarationModel::empty().lemma_stream_prefix(t, b, l as int);
                    }
                },
                Err(e) => {},
            }
        }
        if num == 50 {
            match parse_varint(s) {
                Ok((l, m)) => if 0 < m <= s.len() {
                    let t = s.subrange(m as int, s.len() as int);
                    assert((s + b).subrange(m as int, (s + b).len() as int) =~= t + b);
                    if self.features.decode_stream(t, l as int) is Ok {
                        self.features.lemma_stream_prefix(t, b, l as int);
                    }
                },
                Err(e) => {},
            }
        }
    }

    /// Reading exactly `r1` bytes of fields, then `r2` more, is reading while fewer than
    /// `r1 + r2` bytes have been read.
    proof fn lemma_stream_split(self, s: Seq<u8>, r1: int, r2: int)
        requires
            r1 >= 0,
            r2 >= 0,
            self.decode_stream(s, r1) matches Ok((m, c)) && c == r1,
        ensures
            self.decode_stream(s, r1 + r2) == shift_consumed(
                self.decode_stream(s, r1)->Ok_0.0.decode_stream(s.subrange(r1, s.len() as int), r2),
                r1 as nat,
            ),
        decreases s.len(),
    {
        if r1 > 0 {
            let (num, wt, n) = parse_tag(s)->Ok_0;
            let rest = s.subrange(n as int, s.len() as int);
            let (m, k) = self.merge_field(num, wt, rest)->Ok_0;
            let t = rest.subrange(k as int, rest.len() as int);
            m.lemma_stream_bounds(t, r1 - (n + k));
            assert(t.subrange(r1 - (n + k), t.len() as int) =~= s.subrange(r1, s.len() as int));
            m.lemma_stream_split(t, r1 - (n + k), r2);
        } else {
            assert(s.subrange(0, s.len() as int) =~= s);
        }
    }

    /// Decoding is merging: when the fields of `a` merge into the message without error,
    /// merging `a` followed by `b` gives what merging `b` into that result gives.
    pub proof fn lemma_merge_from_concat(self, a: Seq<u8>, b: Seq<u8>)
        requires
            self.merge_from(a) is Ok,
        ensures
            self.merge_from(a + b) == self.merge_from(a)->Ok_0.merge_from(b),
    {
        self.lemma_stream_bounds(a, a.len() as int);
        self.lemma_stream_prefix(a, b, a.len() as int);
        assert((a + b).len() == a.len() + b.len());
        self.lemma_stream_split(a + b, a.len() as int, b.len() as int);
        assert((a + b).subrange(a.len() as int, (a + b).len() as int) =~= b);
    }

    proof fn lemma_single_field(self, s: Seq<u8>, num: u32, wt: u32, n: nat)
        requires
            parse_tag(s) == Ok::<(u32, u32, nat), DecodeError>((num, wt, n)),
            num != 0,
            self.merge_field(num, wt, s.subrange(n as int, s.len() as int)) matches Ok((m, k)) && n + k == s.len(),
        ensures
            self.merge_from(s) == Ok::<ExtensionRangeOptionsModel, DecodeError>(self.merge_field(num, wt, s.subrange(n as int, s.len() as int))->Ok_0.0),
    {
        lemma_tag_bounds(s);
        let rest = s.subrange(n as int, s.len() as int);
        let (m, k) = self.merge_field(num, wt, rest)->Ok_0;
        assert(rest.subrange(k as int, rest.len() as int) =~= Seq::<u8>::empty());
        assert(m.decode_stream(rest.subrange(k as int, rest.len() as int), s.len() - (n + k)) == Ok::<
            (ExtensionRangeOptionsModel, nat),
            DecodeError,
        >((m, 0)));
    }

    /// A field numbered 999 holds `uninterpreted_option`: decoding a buffer that holds just such a field,
    /// whatever its wire type, decodes its payload as a new message and appends it to `uninterpreted_option`,
    /// and leaves every other field as it was.
    pub proof fn lemma_decode_uninterpreted_option(self, s: Seq<u8>, wt: u32, n: nat, l: u64, m: nat, x: pb::UninterpretedOption_::UninterpretedOptionModel)
        requires
            parse_tag(s) == Ok::<(u32, u32, nat), DecodeError>((999, wt, n)),
            parse_varint(s.subrange(n as int, s.len() as int)) == Ok::<(u64, nat), DecodeError>((l, m)),
            n + m + l == s.len(),
            pb::UninterpretedOption_::UninterpretedOptionModel::empty().merge_from(s.subrange((n + m) as int, s.len() as int)) == Ok::<pb::UninterpretedOption_::UninterpretedOptionModel, DecodeError>(x),
        ensures
            self.merge_from(s) == Ok::<ExtensionRangeOptionsModel, DecodeError>((ExtensionRangeOptionsModel { uninterpreted_option: self.uninterpreted_option.push(x), ..self })),
    {
        reveal(ExtensionRangeOptionsModel::merge_field);
        lemma_tag_bounds(s);
        lemma_varint_bounds(s.subrange(n as int, s.len() as int));
        assert(s.subrange(n as int, s.len() as int).subrange(m as int, s.subrange(n as int, s.len() as int).len() as int) =~= s.subrange((n + m) as int, s.len() as int));
        pb::UninterpretedOption_::UninterpretedOptionModel::empty().lemma_stream_bounds(s.subrange((n + m) as int, s.len() as int), l as int);
        self.lemma_single_field(s, 999, wt, n);
    }

    /// A field numbered 2 holds `declaration`: decoding a buffer that holds just such a field,
    /// whatever its wire type, decodes its payload as a new message and appends it to `declaration`,
    /// and leaves every other field as it was.
    pub proof fn lemma_decode_declaration(self, s: Seq<u8>, wt: u32, n: nat, l: u64, m: nat, x: pb::ExtensionRangeOptions_::Declaration_::DeclarationModel)
        requires
            parse_tag(s) == Ok::<(u32, u32, nat), DecodeError>((2, wt, n)),
            parse_varint(s.subrange(n as int, s.len() as int)) == Ok::<(u64, nat), DecodeError>((l, m)),
            n + m + l == s.len(),
            pb::ExtensionRangeOptions_::Declaration_::DeclarationModel::empty().merge_from(s.subrange((n + m) as int, s.len() as int)) == Ok::<pb::ExtensionRangeOptions_::Declaration_::DeclarationModel, DecodeError>(x),
        ensures
            self.merge_from(s) == Ok::<ExtensionRangeOptionsModel, DecodeError>((ExtensionRangeOptionsModel { declaration: self.declaration.push(x), ..self })),
    {
        reveal(ExtensionRangeOptionsModel::merge_field);
        lemma_tag_bounds(s);
        lemma_varint_bounds(s.subrange(n as int, s.len() as int));
        assert(s.subrange(n as int, s.len() as int).subrange(m as int, s.subrange(n as int, s.len() as int).len() as int) =~= s.subrange((n + m) as int, s.len() as int));
        pb::ExtensionRangeOptions_::Declaration_::DeclarationModel::empty().lemma_stream_bounds(s.subrange((n + m) as int, s.len() as int), l as int);
        self.lemma_single_field(s, 2, wt, n);
    }

    /// A field numbered 50 holds `features`: decoding a buffer that holds just such a field,
    /// whatever its wire type, merges its payload into `features`, marks it present,
    /// and leaves every other field as it was.
    pub proof fn lemma_decode_features(self, s: Seq<u8>, wt: u32, n: nat, l: u64, m: nat, x: pb::FeatureSet_::FeatureSetModel)
        requires
            parse_tag(s) == Ok::<(u32, u32, nat), DecodeError>((50, wt, n)),
            parse_varint(s.subrange(n as int, s.len() as int)) == Ok::<(u64, nat), DecodeError>((l, m)),
            n + m + l == s.len(),
            self.features.merge_from(s.subrange((n + m) as int, s.len() as int)) == Ok::<pb::FeatureSet_::FeatureSetModel, DecodeError>(x),
        ensures
            self.merge_from(s) == Ok::<ExtensionRangeOptionsModel, DecodeError>((ExtensionRangeOptionsModel { features: x, _has: self._has.update(0, true), ..self })),
    {
        reveal(ExtensionRangeOptionsModel::merge_field);
        lemma_tag_bounds(s);
        lemma_varint_bounds(s.subrange(n as int, s.len() as int));
        assert(s.subrange(n as int, s.len() as int).subrange(m as int, s.subrange(n as int, s.len() as int).len() as int) =~= s.subrange((n + m) as int, s.len() as int));
        self.features.lemma_stream_bounds(s.subrange((n + m) as int, s.len() as int), l as int);
        self.lemma_single_field(s, 50, wt, n);
    }

    /// A field numbered 3 holds `verification`: decoding a buffer that holds just such a field,
    /// whatever its wire type, sets `verification` to the low 32 bits of the varint, marks it present,
    /// and leaves every other field as it was.
    pub proof fn lemma_decode_verification(self, s: Seq<u8>, wt: u32, n: nat, v: u64, k: nat)
        requires
            parse_tag(s) == Ok::<(u32, u32, nat), DecodeError>((3, wt, n)),
            parse_varint(s.subrange(n as int, s.len() as int)) == Ok::<(u64, nat), DecodeError>((v, k)),
            n + k == s.len(),
        ensures
            self.merge_from(s) == Ok::<ExtensionRangeOptionsModel, DecodeError>((ExtensionRangeOptionsModel { verification: pb::ExtensionRangeOptions_::VerificationState(varint_as_i32(v)), _has: self._has.update(1, true), ..self })),
    {
        reveal(ExtensionRangeOptionsModel::merge_field);
        self.lemma_single_field(s, 3, wt, n);
    }

    /// A field whose number this message does not define is skipped by its wire type:
    /// decoding a buffer that holds just such a field leaves the message as it was.
    pub proof fn lemma_decode_unknown(self, s: Seq<u8>, num: u32, wt: u32, n: nat, k: nat)
        requires
            parse_tag(s) == Ok::<(u32, u32, nat), DecodeError>((num, wt, n)),
            num != 0,
            num != 999 && num != 2 && num != 50 && num != 3,
            skip_len(s.subrange(n as int, s.len() as int), wt) == Ok::<nat, DecodeError>(k),
            n + k == s.len(),
        ensures
            self.merge_from(s) == Ok::<ExtensionRangeOptionsModel, DecodeError>(self),
    {
        reveal(ExtensionRangeOptionsModel::merge_field);
        self.lemma_single_field(s, num, wt, n);
    }
}

impl Default for ExtensionRangeOptions {
    fn default() -> (r: Self)
        ensures
            r@ == ExtensionRangeOptionsModel::empty(),
    {
        let r = ExtensionRangeOptions {
            uninterpreted_option: Vec::new(),
            declaration: Vec::new(),
            features: pb::FeatureSet_::FeatureSet::default(),
            verification: pb::ExtensionRangeOptions_::VerificationState::default(),
            _has: _Hazzer::default(),
        };
        assert(r@ =~= ExtensionRangeOptionsModel::empty());
        r
    }
}

impl ExtensionRangeOptions {
    ///Return a reference to `features` as an `Option`
    #[inline]
    pub fn features(&self) -> (r: Option<&pb::FeatureSet_::FeatureSet>)
        ensures
            r == (if self._has@[0] {
                Some(&self.features)
            } else {
                None
            }),
    {
        if self._has.features() {
            Some(&self.features)
        } else {
            None
        }
    }

    ///Return a mutable reference to `features` as an `Option`
    #[inline]
    pub fn mut_features(&mut self) -> (r: Option<&mut pb::FeatureSet_::FeatureSet>)
        ensures
            old(self)._has@[0] ==> r is Some && *r->0 == old(self).features && final(self).features
                == *final(r->0) && *final(self) == (ExtensionRangeOptions { features: final(self).features, ..*old(self) }),
            !old(self)._has@[0] ==> r is None && *final(self) == *old(self),
    {
        if self._has.features() {
            Some(&mut self.features)
        } else {
            None
        }
    }

    ///Set the value and presence of `features`
    #[inline]
    pub fn set_features(&mut self, value: pb::FeatureSet_::FeatureSet) -> (r: &mut Self)
        ensures
            r._has@ == old(self)._has@.update(0, true),
            *r == (ExtensionRangeOptions { features: value, _has: r._has, ..*old(self) }),
            *final(self) == *final(r),
    {
        self._has.set_features();
        self.features = value;
        self
    }

    ///Clear the presence of `features`
    #[inline]
    pub fn clear_features(&mut self) -> (r: &mut Self)
        ensures
            r._has@ == old(self)._has@.update(0, false),
            *r == (ExtensionRangeOptions { _has: r._has, ..*old(self) }),
            *final(self) == *final(r),
    {
        self._has.clear_features();
        self
    }

    ///Take the value of `features` and clear its presence
    #[inline]
    pub fn take_features(&mut self) -> (r: Option<pb::FeatureSet_::FeatureSet>)
        ensures
            r == (if old(self)._has@[0] {
                Some(old(self).features)
            } else {
                None
            }),
            final(self)._has@ == old(self)._has@.update(0, false),
            old(self)._has@[0] ==> final(self).features@ == pb::FeatureSet_::FeatureSetModel::empty(),
            !old(self)._has@[0] ==> final(self).features == old(self).features,
            *final(self) == (ExtensionRangeOptions { features: final(self).features, _has: final(self)._has, ..*old(self) }),
    {
        let val = if self._has.features() {
            let mut v: pb::FeatureSet_::FeatureSet = pb::FeatureSet_::FeatureSet::default();
            std::mem::swap(&mut self.features, &mut v);
            Some(v)
        } else {
            None
        };
        self._has.clear_features();
        val
    }

    ///Builder method that sets the value of `features`. Useful for initializing the message.
    #[inline]
    pub fn init_features(self, value: pb::FeatureSet_::FeatureSet) -> (r: Self)
        ensures
            r._has@ == self._has@.update(0, true),
            r == (ExtensionRangeOptions { features: value, _has: r._has, ..self }),
    {
        let mut s = self;
        s.set_features(value);
        s
    }

    ///Return a reference to `verification` as an `Option`
    #[inline]
    pub fn verification(&self) -> (r: Option<&pb::ExtensionRangeOptions_::VerificationState>)
        ensures
            r == (if self._has@[1] {
                Some(&self.verification)
            } else {
                None
            }),
    {
        if self._has.verification() {
            Some(&self.verification)
        } else {
            None
        }
    }

    ///Return a mutable reference to `verification` as an `Option`
    #[inline]
    pub fn mut_verification(&mut self) -> (r: Option<&mut pb::ExtensionRangeOptions_::VerificationState>)
        ensures
            old(self)._has@[1] ==> r is Some && *r->0 == old(self).verification && final(self).verification
                == *final(r->0) && *final(self) == (ExtensionRangeOptions { verification: final(self).verification, ..*old(self) }),
            !old(self)._has@[1] ==> r is None && *final(self) == *old(self),
    {
        if self._has.verification() {
            Some(&mut self.verification)
        } else {
            None
        }
    }

    ///Set the value and presence of `verification`
    #[inline]
    pub fn set_verification(&mut self, value: pb::ExtensionRangeOptions_::VerificationState) -> (r: &mut Self)
        ensures
            r._has@ == old(self)._has@.update(1, true),
            *r == (ExtensionRangeOptions { verification: value, _has: r._has, ..*old(self) }),
            *final(self) == *final(r),
    {
        self._has.set_verification();
        self.verification = value;
        self
    }

    ///Clear the presence of `verification`
    #[inline]
    pub fn clear_verification(&mut self) -> (r: &mut Self)
        ensures
            r._has@ == old(self)._has@.update(1, false),
            *r == (ExtensionRangeOptions { _has: r._has, ..*old(self) }),
            *final(self) == *final(r),
    {
        self._has.clear_verification();
        self
    }

    ///Take the value of `verification` and clear its presence
    #[inline]
    pub fn take_verification(&mut self) -> (r: Option<pb::ExtensionRangeOptions_::VerificationState>)
        ensures
            r == (if old(self)._has@[1] {
                Some(old(self).verification)
            } else {
                None
            }),
            final(self)._has@ == old(self)._has@.update(1, false),
            old(self)._has@[1] ==> final(self).verification == pb::ExtensionRangeOptions_::VerificationState(0),
            !old(self)._has@[1] ==> final(self).verification == old(self).verification,
            *final(self) == (ExtensionRangeOptions { verification: final(self).verification, _has: final(self)._has, ..*old(self) }),
    {
        let val = if self._has.verification() {
            let mut v: pb::ExtensionRangeOptions_::VerificationState = pb::ExtensionRangeOptions_::VerificationState::default();
            std::mem::swap(&mut self.verification, &mut v);
            Some(v)
        } else {
            None
        };
        self._has.clear_verification();
        val
    }

    ///Builder method that sets the value of `verification`. Useful for initializing the message.
    #[inline]
    pub fn init_verification(self, value: pb::ExtensionRangeOptions_::VerificationState) -> (r: Self)
        ensures
            r._has@ == self._has@.update(1, true),
            r == (ExtensionRangeOptions { verification: value, _has: r._has, ..self }),
    {
        let mut s = self;
        s.set_verification(value);
        s
    }

    /// Merges the value of the field numbered `num`, with wire type `wt`, that starts at
    /// `pos` in `buf` into the message, and gives the position just past the value.
    pub fn merge_field(&mut self, num: u32, wt: u32, buf: &[u8], pos: usize) -> (r: Result<usize, DecodeError>)
        requires
            pos <= buf.len(),
        ensures
            match old(self)@.merge_field(num, wt, buf@.subrange(pos as int, buf.len() as int)) {
                Ok((m, k)) => r matches Ok(next) && next == pos + k && final(self)@ == m,
                Err(e) => r == Err::<usize, DecodeError>(e),
            },
            r matches Ok(next) ==> next <= buf.len(),
            r is Err ==> final(self)@ == old(self)@.merge_field_partial(num, wt, buf@.subrange(pos as int, buf.len() as int)),
    {
        proof {
            reveal(ExtensionRangeOptionsModel::merge_field);
        }
        match num {
            999 => self.merge_uninterpreted_option_field(wt, buf, pos),
            2 => self.merge_declaration_field(wt, buf, pos),
            50 => self.merge_features_field(wt, buf, pos),
            3 => self.merge_verification_field(wt, buf, pos),
            _ => skip_value(buf, pos, buf.len(), wt),
        }
    }

    /// Merges the value of a field numbered 999, starting at `pos` in `buf`, into `uninterpreted_option`.
    fn merge_uninterpreted_option_field(&mut self, wt: u32, buf: &[u8], pos: usize) -> (r: Result<usize, DecodeError>)
        requires
            pos <= buf.len(),
        ensures
            match old(self)@.merge_field(999, wt, buf@.subrange(pos as int, buf.len() as int)) {
                Ok((m, k)) => r matches Ok(next) && next == pos + k && final(self)@ == m,
                Err(e) => r == Err::<usize, DecodeError>(e),
            },
            r matches Ok(next) ==> next <= buf.len(),
            r is Err ==> final(self)@ == old(self)@.merge_field_partial(999, wt, buf@.subrange(pos as int, buf.len() as int)),
    {
        proof {
            reveal(ExtensionRangeOptionsModel::merge_field);
        }
        let ghost m0 = self@;
        let end = buf.len();
        match read_varint(buf, pos, end) {
            Ok((l, q)) => {
                proof {
                    assert(buf@.subrange(pos as int, end as int).subrange((q - pos) as int, (end - pos) as int) =~= buf@.subrange(q as int, end as int));
                }
                let mut v = pb::UninterpretedOption_::UninterpretedOption::default();
                match v.decode(buf, q, l) {
                    Ok(next) => {
                        let ghost vm = v@;
                        self.uninterpreted_option.push(v);
                        proof {
                            assert(self@ =~= (ExtensionRangeOptionsModel { uninterpreted_option: m0.uninterpreted_option.push(vm), ..m0 }));
                        }
                        Ok(next)
                    },
                    Err(e) => Err(e),
                }
            },
            Err(e) => Err(e),
        }
    }

    /// Merges the value of a field numbered 2, starting at `pos` in `buf`, into `declaration`.
    fn merge_declaration_field(&mut self, wt: u32, buf: &[u8], pos: usize) -> (r: Result<usize, DecodeError>)
        requires
            pos <= buf.len(),
        ensures
            match old(self)@.merge_field(2, wt, buf@.subrange(pos as int, buf.len() as int)) {
                Ok((m, k)) => r matches Ok(next) && next == pos + k && final(self)@ == m,
                Err(e) => r == Err::<usize, DecodeError>(e),
            },
            r matches Ok(next) ==> next <= buf.len(),
            r is Err ==> final(self)@ == old(self)@.merge_field_partial(2, wt, buf@.subrange(pos as int, buf.len() as int)),
    {
        proof {
            reveal(ExtensionRangeOptionsModel::merge_field);
        }
        let ghost m0 = self@;
        let end = buf.len();
        match read_varint(buf, pos, end) {
            Ok((l, q)) => {
                proof {
                    assert(buf@.subrange(pos as int, end as int).subrange((q - pos) as int, (end - pos) as int) =~= buf@.subrange(q as int, end as int));
                }
                let mut v = pb::ExtensionRangeOptions_::Declaration_::Declaration::default();
                match v.decode(buf, q, l) {
                    Ok(next) => {
                        let ghost vm = v@;
                        self.declaration.push(v);
                        proof {
                            assert(self@ =~= (ExtensionRangeOptionsModel { declaration: m0.declaration.push(vm), ..m0 }));
                        }
                        Ok(next)
                    },
                    Err(e) => Err(e),
                }
            },
            Err(e) => Err(e),
        }
    }

    /// Merges the value of a field numbered 50, starting at `pos` in `buf`, into `features`.
    fn merge_features_field(&mut self, wt: u32, buf: &[u8], pos: usize) -> (r: Result<usize, DecodeError>)
        requires
            pos <= buf.len(),
        ensures
            match old(self)@.merge_field(50, wt, buf@.subrange(pos as int, buf.len() as int)) {
                Ok((m, k)) => r matches Ok(next) && next == pos + k && final(self)@ == m,
                Err(e) => r == Err::<usize, DecodeError>(e),
            },
            r matches Ok(next) ==> next <= buf.len(),
            r is Err ==> final(self)@ == old(self)@.merge_field_partial(50, wt, buf@.subrange(pos as int, buf.len() as int)),
    {
        proof {
            reveal(ExtensionRangeOptionsModel::merge_field);
        }
        let ghost m0 = self@;
        let end = buf.len();
        match read_varint(buf, pos, end) {
            Ok((l, q)) => {
                proof {
                    assert(buf@.subrange(pos as int, end as int).subrange((q - pos) as int, (end - pos) as int) =~= buf@.subrange(q as int, end as int));
                }
                match self.features.decode(buf, q, l) {
                    Ok(next) => {
                        self._has.set_features();
                        proof {
                            assert(self@ =~= (ExtensionRangeOptionsModel { features: self.features@, _has: m0._has.update(0, true), ..m0 }));
                        }
                        Ok(next)
                    },
                    Err(e) => {
                        proof {
                            assert(self@ =~= (ExtensionRangeOptionsModel { features: self.features@, ..m0 }));
                        }
                        Err(e)
                    },
                }
            },
            Err(e) => Err(e),
        }
    }

    /// Merges the value of a field numbered 3, starting at `pos` in `buf`, into `verification`.
    fn merge_verification_field(&mut self, wt: u32, buf: &[u8], pos: usize) -> (r: Result<usize, DecodeError>)
        requires
            pos <= buf.len(),
        ensures
            match old(self)@.merge_field(3, wt, buf@.subrange(pos as int, buf.len() as int)) {
                Ok((m, k)) => r matches Ok(next) && next == pos + k && final(self)@ == m,
                Err(e) => r == Err::<usize, DecodeError>(e),
            },
            r matches Ok(next) ==> next <= buf.len(),
            r is Err ==> final(self)@ == old(self)@.merge_field_partial(3, wt, buf@.subrange(pos as int, buf.len() as int)),
    {
        proof {
            reveal(ExtensionRangeOptionsModel::merge_field);
        }
        let ghost m0 = self@;
        let end = buf.len();
        match read_varint(buf, pos, end) {
            Ok((v, next)) => {
                self.verification = pb::ExtensionRangeOptions_::VerificationState(to_i32(v));
                self._has.set_verification();
                proof {
                    assert(self@ =~= (ExtensionRangeOptionsModel { verification: pb::ExtensionRangeOptions_::VerificationState(varint_as_i32(v)), _has: m0._has.update(1, true), ..m0 }));
                }
                Ok(next)
            },
            Err(e) => Err(e),
        }
    }

    /// Reads fields from `buf`, from `start` on, into the message while fewer than `len`
    /// bytes have been read, and gives the position just past the last field read.
    #[verifier::rlimit(40)]
    pub fn decode(&mut self, buf: &[u8], start: usize, len: u64) -> (r: Result<usize, DecodeError>)
        requires
            start <= buf.len(),
        ensures
            match old(self)@.decode_stream(buf@.subrange(start as int, buf.len() as int), len as int) {
                Ok((m, c)) => r matches Ok(next) && next == start + c && final(self)@ == m,
                Err(e) => r == Err::<usize, DecodeError>(e),
            },
            r matches Ok(next) ==> next <= buf.len(),
            r is Err ==> final(self)@ == old(self)@.until_error_stream(
                buf@.subrange(start as int, buf.len() as int),
                len as int,
            ),
    {
        let mut pos = start;
        while ((pos - start) as u64) < len
            invariant
                start <= pos <= buf.len(),
                old(self)@.decode_stream(buf@.subrange(start as int, buf.len() as int), len as int)
                    == shift_consumed(
                    self@.decode_stream(buf@.subrange(pos as int, buf.len() as int), len - (pos - start)),
                    (pos - start) as nat,
                ),
                old(self)@.until_error_stream(buf@.subrange(start as int, buf.len() as int), len as int)
                    == self@.until_error_stream(buf@.subrange(pos as int, buf.len() as int), len - (pos - start)),
            decreases buf.len() - pos,
        {
            let ghost s = buf@.subrange(pos as int, buf.len() as int);
            let (num, wt, p) = match read_tag(buf, pos, buf.len()) {
                Ok(x) => x,
                Err(e) => return Err(e),
            };
            if num == 0 {
                return Err(DecodeError::ZeroField);
            }
            proof {
                lemma_tag_bounds(s);
                assert(s.subrange((p - pos) as int, s.len() as int) =~= buf@.subrange(p as int, buf.len() as int));
            }
            let next = match self.merge_field(num, wt, buf, p) {
                Ok(x) => x,
                Err(e) => return Err(e),
            };
            proof {
                let rest = buf@.subrange(p as int, buf.len() as int);
                assert(rest.subrange((next - p) as int, rest.len() as int) =~= buf@.subrange(
                    next as int,
                    buf.len() as int,
                ));
            }
            pos = next;
        }
        Ok(pos)
    }

    /// Merges the fields encoded in `bytes` into the message.
    pub fn decode_from_bytes(&mut self, bytes: &[u8]) -> (r: Result<(), DecodeError>)
        ensures
            match old(self)@.merge_from(bytes@) {
                Ok(m) => r is Ok && final(self)@ == m,
                Err(e) => r == Err::<(), DecodeError>(e),
            },
            r is Err ==> final(self)@ == old(self)@.merge_until_error(bytes@),
    {
        assert(bytes@.subrange(0, bytes@.len() as int) =~= bytes@);
        match self.decode(bytes, 0, bytes.len() as u64) {
            Ok(_) => Ok(()),
            Err(e) => Err(e),
        }
    }
}

} // verus!
