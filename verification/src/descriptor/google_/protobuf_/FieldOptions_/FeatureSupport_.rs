//! `FeatureSupport`, with its nested types and its presence bits.
use vstd::prelude::*;
use vstd::utf8::{decode_utf8, valid_utf8};
use crate::bits::{flags_of, lemma_flags_clear, lemma_flags_get, lemma_flags_set, lemma_flags_zero};
use crate::descriptor::google_::protobuf_ as pb;
use crate::wire::{
    copy_bytes, lemma_len_bounds, lemma_varint_bounds, lemma_tag_bounds, lemma_values_prefix, parse_fixed64, parse_len, parse_packed_i32,
    parse_string, parse_tag, parse_varint, read_fixed64, read_len, read_packed_i32, read_string,
    read_tag, read_varint, shift_consumed, skip_len, skip_value, to_i32, to_i64, varint_as_i32,
    varint_as_i64, DecodeError, WIRE_TYPE_LEN,
};


verus! {

/// Presence bits of the optional fields of `FeatureSupport`: bit `i % 8` of byte `i / 8` is flag `i`.
#[derive(Debug, PartialEq)]
pub struct _Hazzer(pub [u8; 1]);

impl View for _Hazzer {
    type V = Seq<bool>;

    open spec fn view(&self) -> Seq<bool> {
        flags_of(self.0@)
    }
}

impl Default for _Hazzer {
    fn default() -> (r: Self)
        ensures
            r@ == Seq::new(8, |i: int| false),
    {
        let r = _Hazzer([0u8]);
        proof {
            lemma_flags_zero(r.0@);
            assert(r@ =~= Seq::new(8, |i: int| false));
        }
        r
    }
}

impl Clone for _Hazzer {
    fn clone(&self) -> (r: Self)
        ensures
            r == *self,
    {
        _Hazzer(self.0)
    }
}

impl _Hazzer {
    ///Query presence of `edition_introduced`
    #[inline]
    pub fn edition_introduced(&self) -> (r: bool)
        ensures
            r == self@[0],
    {
        proof {
            lemma_flags_get(self.0@, 0, 0);
        }
        (self.0[0] & (1u8 << 0u8)) != 0
    }

    ///Set presence of `edition_introduced`
    #[inline]
    pub fn set_edition_introduced(&mut self) -> (r: &mut Self)
        ensures
            r@ == old(self)@.update(0, true),
            *final(self) == *final(r),
    {
        let ghost bytes = self.0@;
        self.0[0] = self.0[0] | (1u8 << 0u8);
        proof {
            lemma_flags_set(bytes, self.0@, 0, 0);
        }
        self
    }

    ///Clear presence of `edition_introduced`
    #[inline]
    pub fn clear_edition_introduced(&mut self) -> (r: &mut Self)
        ensures
            r@ == old(self)@.update(0, false),
            *final(self) == *final(r),
    {
        let ghost bytes = self.0@;
        self.0[0] = self.0[0] & !(1u8 << 0u8);
        proof {
            lemma_flags_clear(bytes, self.0@, 0, 0);
        }
        self
    }

    ///Builder method that sets the presence of `edition_introduced`. Useful for initializing the Hazzer.
    #[inline]
    pub fn init_edition_introduced(self) -> (r: Self)
        ensures
            r@ == self@.update(0, true),
    {
        let mut s = self;
        s.set_edition_introduced();
        s
    }

    ///Query presence of `edition_deprecated`
    #[inline]
    pub fn edition_deprecated(&self) -> (r: bool)
        ensures
            r == self@[1],
    {
        proof {
            lemma_flags_get(self.0@, 0, 1);
        }
        (self.0[0] & (1u8 << 1u8)) != 0
    }

    ///Set presence of `edition_deprecated`
    #[inline]
    pub fn set_edition_deprecated(&mut self) -> (r: &mut Self)
        ensures
            r@ == old(self)@.update(1, true),
            *final(self) == *final(r),
    {
        let ghost bytes = self.0@;
        self.0[0] = self.0[0] | (1u8 << 1u8);
        proof {
            lemma_flags_set(bytes, self.0@, 0, 1);
        }
        self
    }

    ///Clear presence of `edition_deprecated`
    #[inline]
    pub fn clear_edition_deprecated(&mut self) -> (r: &mut Self)
        ensures
            r@ == old(self)@.update(1, false),
            *final(self) == *final(r),
    {
        let ghost bytes = self.0@;
        self.0[0] = self.0[0] & !(1u8 << 1u8);
        proof {
            lemma_flags_clear(bytes, self.0@, 0, 1);
        }
        self
    }

    ///Builder method that sets the presence of `edition_deprecated`. Useful for initializing the Hazzer.
    #[inline]
    pub fn init_edition_deprecated(self) -> (r: Self)
        ensures
            r@ == self@.update(1, true),
    {
        let mut s = self;
        s.set_edition_deprecated();
        s
    }

    ///Query presence of `deprecation_warning`
    #[inline]
    pub fn deprecation_warning(&self) -> (r: bool)
        ensures
            r == self@[2],
    {
        proof {
            lemma_flags_get(self.0@, 0, 2);
        }
        (self.0[0] & (1u8 << 2u8)) != 0
    }

    ///Set presence of `deprecation_warning`
    #[inline]
    pub fn set_deprecation_warning(&mut self) -> (r: &mut Self)
        ensures
            r@ == old(self)@.update(2, true),
            *final(self) == *final(r),
    {
        let ghost bytes = self.0@;
        self.0[0] = self.0[0] | (1u8 << 2u8);
        proof {
            lemma_flags_set(bytes, self.0@, 0, 2);
        }
        self
    }

    ///Clear presence of `deprecation_warning`
    #[inline]
    pub fn clear_deprecation_warning(&mut self) -> (r: &mut Self)
        ensures
            r@ == old(self)@.update(2, false),
            *final(self) == *final(r),
    {
        let ghost bytes = self.0@;
        self.0[0] = self.0[0] & !(1u8 << 2u8);
        proof {
            lemma_flags_clear(bytes, self.0@, 0, 2);
        }
        self
    }

    ///Builder method that sets the presence of `deprecation_warning`. Useful for initializing the Hazzer.
    #[inline]
    pub fn init_deprecation_warning(self) -> (r: Self)
        ensures
            r@ == self@.update(2, true),
    {
        let mut s = self;
        s.set_deprecation_warning();
        s
    }

    ///Query presence of `edition_removed`
    #[inline]
    pub fn edition_removed(&self) -> (r: bool)
        ensures
            r == self@[3],
    {
        proof {
            lemma_flags_get(self.0@, 0, 3);
        }
        (self.0[0] & (1u8 << 3u8)) != 0
    }

    ///Set presence of `edition_removed`
    #[inline]
    pub fn set_edition_removed(&mut self) -> (r: &mut Self)
        ensures
            r@ == old(self)@.update(3, true),
            *final(self) == *final(r),
    {
        let ghost bytes = self.0@;
        self.0[0] = self.0[0] | (1u8 << 3u8);
        proof {
            lemma_flags_set(bytes, self.0@, 0, 3);
        }
        self
    }

    ///Clear presence of `edition_removed`
    #[inline]
    pub fn clear_edition_removed(&mut self) -> (r: &mut Self)
        ensures
            r@ == old(self)@.update(3, false),
            *final(self) == *final(r),
    {
        let ghost bytes = self.0@;
        self.0[0] = self.0[0] & !(1u8 << 3u8);
        proof {
            lemma_flags_clear(bytes, self.0@, 0, 3);
        }
        self
    }

    ///Builder method that sets the presence of `edition_removed`. Useful for initializing the Hazzer.
    #[inline]
    pub fn init_edition_removed(self) -> (r: Self)
        ensures
            r@ == self@.update(3, true),
    {
        let mut s = self;
        s.set_edition_removed();
        s
    }
}

/// The Protobuf message `google.protobuf.FieldOptions.FeatureSupport`.
#[derive(Debug)]
pub struct FeatureSupport {
    pub edition_introduced: pb::Edition,
    pub edition_deprecated: pb::Edition,
    pub deprecation_warning: String,
    pub edition_removed: pb::Edition,
    pub _has: _Hazzer,
}

/// The value of a `FeatureSupport` as the contracts see it.
#[verifier::ext_equal]
pub ghost struct FeatureSupportModel {
    pub edition_introduced: pb::Edition,
    pub edition_deprecated: pb::Edition,
    pub deprecation_warning: Seq<char>,
    pub edition_removed: pb::Edition,
    pub _has: Seq<bool>,
}

impl View for FeatureSupport {
    type V = FeatureSupportModel;

    open spec fn view(&self) -> FeatureSupportModel {
        FeatureSupportModel {
            edition_introduced: self.edition_introduced,
            edition_deprecated: self.edition_deprecated,
            deprecation_warning: self.deprecation_warning@,
            edition_removed: self.edition_removed,
            _has: self._has@,
        }
    }
}

impl FeatureSupportModel {
    /// The value of a `FeatureSupport` with no field set.
    pub open spec fn empty() -> FeatureSupportModel {
        FeatureSupportModel {
            edition_introduced: pb::Edition(0),
            edition_deprecated: pb::Edition(0),
            deprecation_warning: Seq::empty(),
            edition_removed: pb::Edition(0),
            _has: Seq::new(8, |i: int| false),
        }
    }

    /// The message after the value of the field numbered `num`, with wire type `wt`, at the
    /// start of `s` has been merged into it, and the length of that value. A known field is
    /// read as its own type: a later value of a singular field replaces the earlier one, and
    /// a repeated field gains the values at its end. An unknown field is skipped by its wire
    /// type and leaves the message as it was.
    #[verifier::opaque]
    pub open spec fn merge_field(self, num: u32, wt: u32, s: Seq<u8>) -> Result<(FeatureSupportModel, nat), DecodeError>
    {
        if num == 1 {
            match parse_varint(s) {
                Ok((v, n)) => Ok(((FeatureSupportModel { edition_introduced: pb::Edition(varint_as_i32(v)), _has: self._has.update(0, true), ..self }), n)),
                Err(e) => Err(e),
            }
        } else if num == 2 {
            match parse_varint(s) {
                Ok((v, n)) => Ok(((FeatureSupportModel { edition_deprecated: pb::Edition(varint_as_i32(v)), _has: self._has.update(1, true), ..self }), n)),
                Err(e) => Err(e),
            }
        } else if num == 3 {
            match parse_len(s) {
                Ok((p, n)) => match parse_string(p) {
                    Ok(t) => Ok(((FeatureSupportModel { deprecation_warning: t, _has: self._has.update(2, true), ..self }), n)),
                    Err(e) => Err(e),
                },
                Err(e) => Err(e),
            }
        } else if num == 4 {
            match parse_varint(s) {
                Ok((v, n)) => Ok(((FeatureSupportModel { edition_removed: pb::Edition(varint_as_i32(v)), _has: self._has.update(3, true), ..self }), n)),
                Err(e) => Err(e),
            }
        } else {
            match skip_len(s, wt) {
                Ok(n) => Ok((self, n)),
                Err(e) => Err(e),
            }
        }
    }

    /// The message after its fields have been read from the start of `s` while fewer than
    /// `rem` bytes have been read, and how many bytes were read. Each field is read whole,
    /// so the last one may run past `rem`. A field numbered 0 is refused.
    pub open spec fn decode_stream(self, s: Seq<u8>, rem: int) -> Result<(FeatureSupportModel, nat), DecodeError>
        decreases s.len(),
    {
        if rem <= 0 {
            Ok((self, 0))
        } else {
            match parse_tag(s) {
                Err(e) => Err(e),
                Ok((num, wt, n)) => if num == 0 {
                    Err(DecodeError::ZeroField)
                } else if 0 < n <= s.len() {
                    let rest = s.subrange(n as int, s.len() as int);
                    match self.merge_field(num, wt, rest) {
                        Ok((m, k)) => if k <= rest.len() {
                            shift_consumed(
                                m.decode_stream(rest.subrange(k as int, rest.len() as int), rem - (n + k)),
                                n + k,
                            )
                        } else {
                            Err(DecodeError::UnexpectedEof)
                        },
                        Err(e) => Err(e),
                    }
                } else {
                    Err(DecodeError::UnexpectedEof)
                },
            }
        }
    }

    /// The message after every field in `s` has been merged into it, in order: its fields
    /// read from `s` while fewer than `s.len()` bytes have been read.
    pub open spec fn merge_from(self, s: Seq<u8>) -> Result<FeatureSupportModel, DecodeError> {
        match self.decode_stream(s, s.len() as int) {
            Ok((m, c)) => Ok(m),
            Err(e) => Err(e),
        }
    }

    /// The message after its fields have been read from the start of `s`, as in
    /// `decode_stream`, up to the first one that fails: that one leaves the message as its
    /// failed merge does, and no field after it is read.
    pub open spec fn until_error_stream(self, s: Seq<u8>, rem: int) -> FeatureSupportModel
        decreases s.len(),
    {
        if rem <= 0 {
            self
        } else {
            match parse_tag(s) {
                Err(e) => self,
                Ok((num, wt, n)) => if num == 0 {
                    self
                } else if 0 < n <= s.len() {
                    let rest = s.subrange(n as int, s.len() as int);
                    match self.merge_field(num, wt, rest) {
                        Ok((m, k)) => if k <= rest.len() {
                            m.until_error_stream(rest.subrange(k as int, rest.len() as int), rem - (n + k))
                        } else {
                            m
                        },
                        Err(e) => self,
                    }
                } else {
                    self
                },
            }
        }
    }

    /// The message after the fields of `s` have been merged into it in order, up to the
    /// first one that fails, which leaves the message as its failed merge does. When none
    /// fails, this is what `merge_from` gives.
    pub open spec fn merge_until_error(self, s: Seq<u8>) -> FeatureSupportModel {
        self.until_error_stream(s, s.len() as int)
    }

    /// Reading fields reads at most the whole input, and at least `rem` bytes when `rem` is
    /// positive.
    pub proof fn lemma_stream_bounds(self, s: Seq<u8>, rem: int)
        ensures
            self.decode_stream(s, rem) matches Ok((m, c)) ==> c <= s.len() && (rem > 0 ==> c >= rem) && (
            rem <= 0 ==> c == 0),
        decreases s.len(),
    {
        if rem > 0 {
            if let Ok((num, wt, n)) = parse_tag(s) {
                if num != 0 && 0 < n <= s.len() {
                    let rest = s.subrange(n as int, s.len() as int);
                    if let Ok((m, k)) = self.merge_field(num, wt, rest) {
                        if k <= rest.len() {
                            m.lemma_stream_bounds(rest.subrange(k as int, rest.len() as int), rem - (n + k));
                        }
                    }
                }
            }
        }
    }

    /// Fields that can be read from `s` read the same from `s` followed by anything.
    pub proof fn lemma_stream_prefix(self, s: Seq<u8>, b: Seq<u8>, rem: int)
        requires
            self.decode_stream(s, rem) is Ok,
        ensures
            self.decode_stream(s + b, rem) == self.decode_stream(s, rem),
        decreases s.len(),
    {
        if rem > 0 {
            lemma_values_prefix(s, b);
            let (num, wt, n) = parse_tag(s)->Ok_0;
            let rest = s.subrange(n as int, s.len() as int);
            assert((s + b).subrange(n as int, (s + b).len() as int) =~= rest + b);
            self.lemma_merge_field_prefix(num, wt, rest, b);
            let (m, k) = self.merge_field(num, wt, rest)->Ok_0;
            let t = rest.subrange(k as int, rest.len() as int);
            assert((rest + b).subrange(k as int, (rest + b).len() as int) =~= t + b);
            m.lemma_stream_prefix(t, b, rem - (n + k));
        }
    }

    proof fn lemma_merge_field_prefix(self, num: u32, wt: u32, s: Seq<u8>, b: Seq<u8>)
        requires
            self.merge_field(num, wt, s) is Ok,
        ensures
            self.merge_field(num, wt, s + b) == self.merge_field(num, wt, s),
        
    {
        reveal(FeatureSupportModel::merge_field);
        lemma_values_prefix(s, b);
        lemma_len_bounds(s);

    }

    /// Reading exactly `r1` bytes of fields, then `r2` more, is reading while fewer than
    /// `r1 + r2` bytes have been read.
    proof fn lemma_stream_split(self, s: Seq<u8>, r1: int, r2: int)
        requires
            r1 >= 0,
            r2 >= 0,
            self.decode_stream(s, r1) matches Ok((m, c)) && c == r1,
        ensures
            self.decode_stream(s, r1 + r2) == shift_consumed(
                self.decode_stream(s, r1)->Ok_0.0.decode_stream(s.subrange(r1, s.len() as int), r2),
                r1 as nat,
            ),
        decreases s.len(),
    {
        if r1 > 0 {
            let (num, wt, n) = parse_tag(s)->Ok_0;
            let rest = s.subrange(n as int, s.len() as int);
            let (m, k) = self.merge_field(num, wt, rest)->Ok_0;
            let t = rest.subrange(k as int, rest.len() as int);
            m.lemma_stream_bounds(t, r1 - (n + k));
            assert(t.subrange(r1 - (n + k), t.len() as int) =~= s.subrange(r1, s.len() as int));
            m.lemma_stream_split(t, r1 - (n + k), r2);
        } else {
            assert(s.subrange(0, s.len() as int) =~= s);
        }
    }

    /// Decoding is merging: when the fields of `a` merge into the message without error,
    /// merging `a` followed by `b` gives what merging `b` into that result gives.
    pub proof fn lemma_merge_from_concat(self, a: Seq<u8>, b: Seq<u8>)
        requires
            self.merge_from(a) is Ok,
        ensures
            self.merge_from(a + b) == self.merge_from(a)->Ok_0.merge_from(b),
    {
        self.lemma_stream_bounds(a, a.len() as int);
        self.lemma_stream_prefix(a, b, a.len() as int);
        assert((a + b).len() == a.len() + b.len());
        self.lemma_stream_split(a + b, a.len() as int, b.len() as int);
        assert((a + b).subrange(a.len() as int, (a + b).len() as int) =~= b);
    }

    proof fn lemma_single_field(self, s: Seq<u8>, num: u32, wt: u32, n: nat)
        requires
            parse_tag(s) == Ok::<(u32, u32, nat), DecodeError>((num, wt, n)),
            num != 0,
            self.merge_field(num, wt, s.subrange(n as int, s.len() as int)) matches Ok((m, k)) && n + k == s.len(),
        ensures
            self.merge_from(s) == Ok::<FeatureSupportModel, DecodeError>(self.merge_field(num, wt, s.subrange(n as int, s.len() as int))->Ok_0.0),
    {
        lemma_tag_bounds(s);
        let rest = s.subrange(n as int, s.len() as int);
        let (m, k) = self.merge_field(num, wt, rest)->Ok_0;
        assert(rest.subrange(k as int, rest.len() as int) =~= Seq::<u8>::empty());
        assert(m.decode_stream(rest.subrange(k as int, rest.len() as int), s.len() - (n + k)) == Ok::<
            (FeatureSupportModel, nat),
            DecodeError,
        >((m, 0)));
    }

    /// A field numbered 1 holds `edition_introduced`: decoding a buffer that holds just such a field,
    /// whatever its wire type, sets `edition_introduced` to the low 32 bits of the varint, marks it present,
    /// and leaves every other field as it was.
    pub proof fn lemma_decode_edition_introduced(self, s: Seq<u8>, wt: u32, n: nat, v: u64, k: nat)
        requires
            parse_tag(s) == Ok::<(u32, u32, nat), DecodeError>((1, wt, n)),
            parse_varint(s.subrange(n as int, s.len() as int)) == Ok::<(u64, nat), DecodeError>((v, k)),
            n + k == s.len(),
        ensures
            self.merge_from(s) == Ok::<FeatureSupportModel, DecodeError>((FeatureSupportModel { edition_introduced: pb::Edition(varint_as_i32(v)), _has: self._has.update(0, true), ..self })),
    {
        reveal(FeatureSupportModel::merge_field);
        self.lemma_single_field(s, 1, wt, n);
    }

    /// A field numbered 2 holds `edition_deprecated`: decoding a buffer that holds just such a field,
    /// whatever its wire type, sets `edition_deprecated` to the low 32 bits of the varint, marks it present,
    /// and leaves every other field as it was.
    pub proof fn lemma_decode_edition_deprecated(self, s: Seq<u8>, wt: u32, n: nat, v: u64, k: nat)
        requires
            parse_tag(s) == Ok::<(u32, u32, nat), DecodeError>((2, wt, n)),
            parse_varint(s.subrange(n as int, s.len() as int)) == Ok::<(u64, nat), DecodeError>((v, k)),
            n + k == s.len(),
        ensures
            self.merge_from(s) == Ok::<FeatureSupportModel, DecodeError>((FeatureSupportModel { edition_deprecated: pb::Edition(varint_as_i32(v)), _has: self._has.update(1, true), ..self })),
    {
        reveal(FeatureSupportModel::merge_field);
        self.lemma_single_field(s, 2, wt, n);
    }

    /// A field numbered 3 holds `deprecation_warning`: decoding a buffer that holds just such a field,
    /// whatever its wire type, sets `deprecation_warning` to the text of its payload, marks it present,
    /// and leaves every other field as it was.
    pub proof fn lemma_decode_deprecation_warning(self, s: Seq<u8>, wt: u32, n: nat, p: Seq<u8>, k: nat)
        requires
            parse_tag(s) == Ok::<(u32, u32, nat), DecodeError>((3, wt, n)),
            parse_len(s.subrange(n as int, s.len() as int)) == Ok::<(Seq<u8>, nat), DecodeError>((p, k)),
            n + k == s.len(),
            valid_utf8(p),
        ensures
            self.merge_from(s) == Ok::<FeatureSupportModel, DecodeError>((FeatureSupportModel { deprecation_warning: decode_utf8(p), _has: self._has.update(2, true), ..self })),
    {
        reveal(FeatureSupportModel::merge_field);
        self.lemma_single_field(s, 3, wt, n);
    }

    /// A field numbered 4 holds `edition_removed`: decoding a buffer that holds just such a field,
    /// whatever its wire type, sets `edition_removed` to the low 32 bits of the varint, marks it present,
    /// and leaves every other field as it was.
    pub proof fn lemma_decode_edition_removed(self, s: Seq<u8>, wt: u32, n: nat, v: u64, k: nat)
        requires
            parse_tag(s) == Ok::<(u32, u32, nat), DecodeError>((4, wt, n)),
            parse_varint(s.subrange(n as int, s.len() as int)) == Ok::<(u64, nat), DecodeError>((v, k)),
            n + k == s.len(),
        ensures
            self.merge_from(s) == Ok::<FeatureSupportModel, DecodeError>((FeatureSupportModel { edition_removed: pb::Edition(varint_as_i32(v)), _has: self._has.update(3, true), ..self })),
    {
        reveal(FeatureSupportModel::merge_field);
        self.lemma_single_field(s, 4, wt, n);
    }

    /// A field whose number this message does not define is skipped by its wire type:
    /// decoding a buffer that holds just such a field leaves the message as it was.
    pub proof fn lemma_decode_unknown(self, s: Seq<u8>, num: u32, wt: u32, n: nat, k: nat)
        requires
            parse_tag(s) == Ok::<(u32, u32, nat), DecodeError>((num, wt, n)),
            num != 0,
            num != 1 && num != 2 && num != 3 && num != 4,
            skip_len(s.subrange(n as int, s.len() as int), wt) == Ok::<nat, DecodeError>(k),
            n + k == s.len(),
        ensures
            self.merge_from(s) == Ok::<FeatureSupportModel, DecodeError>(self),
    {
        reveal(FeatureSupportModel::merge_field);
        self.lemma_single_field(s, num, wt, n);
    }
}

impl Default for FeatureSupport {
    fn default() -> (r: Self)
        ensures
            r@ == FeatureSupportModel::empty(),
    {
        let r = FeatureSupport {
            edition_introduced: pb::Edition::default(),
            edition_deprecated: pb::Edition::default(),
            deprecation_warning: String::new(),
            edition_removed: pb::Edition::default(),
            _has: _Hazzer::default(),
        };
        assert(r@ =~= FeatureSupportModel::empty());
        r
    }
}

impl FeatureSupport {
    ///Return a reference to `edition_introduced` as an `Option`
    #[inline]
    pub fn edition_introduced(&self) -> (r: Option<&pb::Edition>)
        ensures
            r == (if self._has@[0] {
                Some(&self.edition_introduced)
            } else {
                None
            }),
    {
        if self._has.edition_introduced() {
            Some(&self.edition_introduced)
        } else {
            None
        }
    }

    ///Return a mutable reference to `edition_introduced` as an `Option`
    #[inline]
    pub fn mut_edition_introduced(&mut self) -> (r: Option<&mut pb::Edition>)
        ensures
            old(self)._has@[0] ==> r is Some && *r->0 == old(self).edition_introduced && final(self).edition_introduced
                == *final(r->0) && *final(self) == (FeatureSupport { edition_introduced: final(self).edition_introduced, ..*old(self) }),
            !old(self)._has@[0] ==> r is None && *final(self) == *old(self),
    {
        if self._has.edition_introduced() {
            Some(&mut self.edition_introduced)
        } else {
            None
        }
    }

    ///Set the value and presence of `edition_introduced`
    #[inline]
    pub fn set_edition_introduced(&mut self, value: pb::Edition) -> (r: &mut Self)
        ensures
            r._has@ == old(self)._has@.update(0, true),
            *r == (FeatureSupport { edition_introduced: value, _has: r._has, ..*old(self) }),
            *final(self) == *final(r),
    {
        self._has.set_edition_introduced();
        self.edition_introduced = value;
        self
    }

    ///Clear the presence of `edition_introduced`
    #[inline]
    pub fn clear_edition_introduced(&mut self) -> (r: &mut Self)
        ensures
            r._has@ == old(self)._has@.update(0, false),
            *r == (FeatureSupport { _has: r._has, ..*old(self) }),
            *final(self) == *final(r),
    {
        self._has.clear_edition_introduced();
        self
    }

    ///Take the value of `edition_introduced` and clear its presence
    #[inline]
    pub fn take_edition_introduced(&mut self) -> (r: Option<pb::Edition>)
        ensures
            r == (if old(self)._has@[0] {
                Some(old(self).edition_introduced)
            } else {
                None
            }),
            final(self)._has@ == old(self)._has@.update(0, false),
            old(self)._has@[0] ==> final(self).edition_introduced == pb::Edition(0),
            !old(self)._has@[0] ==> final(self).edition_introduced == old(self).edition_introduced,
            *final(self) == (FeatureSupport { edition_introduced: final(self).edition_introduced, _has: final(self)._has, ..*old(self) }),
    {
        let val = if self._has.edition_introduced() {
            let mut v: pb::Edition = pb::Edition::default();
            std::mem::swap(&mut self.edition_introduced, &mut v);
            Some(v)
        } else {
            None
        };
        self._has.clear_edition_introduced();
        val
    }

    ///Builder method that sets the value of `edition_introduced`. Useful for initializing the message.
    #[inline]
    pub fn init_edition_introduced(self, value: pb::Edition) -> (r: Self)
        ensures
            r._has@ == self._has@.update(0, true),
            r == (FeatureSupport { edition_introduced: value, _has: r._has, ..self }),
    {
        let mut s = self;
        s.set_edition_introduced(value);
        s
    }

    ///Return a reference to `edition_deprecated` as an `Option`
    #[inline]
    pub fn edition_deprecated(&self) -> (r: Option<&pb::Edition>)
        ensures
            r == (if self._has@[1] {
                Some(&self.edition_deprecated)
            } else {
                None
            }),
    {
        if self._has.edition_deprecated() {
            Some(&self.edition_deprecated)
        } else {
            None
        }
    }

    ///Return a mutable reference to `edition_deprecated` as an `Option`
    #[inline]
    pub fn mut_edition_deprecated(&mut self) -> (r: Option<&mut pb::Edition>)
        ensures
            old(self)._has@[1] ==> r is Some && *r->0 == old(self).edition_deprecated && final(self).edition_deprecated
                == *final(r->0) && *final(self) == (FeatureSupport { edition_deprecated: final(self).edition_deprecated, ..*old(self) }),
            !old(self)._has@[1] ==> r is None && *final(self) == *old(self),
    {
        if self._has.edition_deprecated() {
            Some(&mut self.edition_deprecated)
        } else {
            None
        }
    }

    ///Set the value and presence of `edition_deprecated`
    #[inline]
    pub fn set_edition_deprecated(&mut self, value: pb::Edition) -> (r: &mut Self)
        ensures
            r._has@ == old(self)._has@.update(1, true),
            *r == (FeatureSupport { edition_deprecated: value, _has: r._has, ..*old(self) }),
            *final(self) == *final(r),
    {
        self._has.set_edition_deprecated();
        self.edition_deprecated = value;
        self
    }

    ///Clear the presence of `edition_deprecated`
    #[inline]
    pub fn clear_edition_deprecated(&mut self) -> (r: &mut Self)
        ensures
            r._has@ == old(self)._has@.update(1, false),
            *r == (FeatureSupport { _has: r._has, ..*old(self) }),
            *final(self) == *final(r),
    {
        self._has.clear_edition_deprecated();
        self
    }

    ///Take the value of `edition_deprecated` and clear its presence
    #[inline]
    pub fn take_edition_deprecated(&mut self) -> (r: Option<pb::Edition>)
        ensures
            r == (if old(self)._has@[1] {
                Some(old(self).edition_deprecated)
            } else {
                None
            }),
            final(self)._has@ == old(self)._has@.update(1, false),
            old(self)._has@[1] ==> final(self).edition_deprecated == pb::Edition(0),
            !old(self)._has@[1] ==> final(self).edition_deprecated == old(self).edition_deprecated,
            *final(self) == (FeatureSupport { edition_deprecated: final(self).edition_deprecated, _has: final(self)._has, ..*old(self) }),
    {
        let val = if self._has.edition_deprecated() {
            let mut v: pb::Edition = pb::Edition::default();
            std::mem::swap(&mut self.edition_deprecated, &mut v);
            Some(v)
        } else {
            None
        };
        self._has.clear_edition_deprecated();
        val
    }

    ///Builder method that sets the value of `edition_deprecated`. Useful for initializing the message.
    #[inline]
    pub fn init_edition_deprecated(self, value: pb::Edition) -> (r: Self)
        ensures
            r._has@ == self._has@.update(1, true),
            r == (FeatureSupport { edition_deprecated: value, _has: r._has, ..self }),
    {
        let mut s = self;
        s.set_edition_deprecated(value);
        s
    }

    ///Return a reference to `deprecation_warning` as an `Option`
    #[inline]
    pub fn deprecation_warning(&self) -> (r: Option<&String>)
        ensures
            r == (if self._has@[2] {
                Some(&self.deprecation_warning)
            } else {
                None
            }),
    {
        if self._has.deprecation_warning() {
            Some(&self.deprecation_warning)
        } else {
            None
        }
    }

    ///Return a mutable reference to `deprecation_warning` as an `Option`
    #[inline]
    pub fn mut_deprecation_warning(&mut self) -> (r: Option<&mut String>)
        ensures
            old(self)._has@[2] ==> r is Some && *r->0 == old(self).deprecation_warning && final(self).deprecation_warning
                == *final(r->0) && *final(self) == (FeatureSupport { deprecation_warning: final(self).deprecation_warning, ..*old(self) }),
            !old(self)._has@[2] ==> r is None && *final(self) == *old(self),
    {
        if self._has.deprecation_warning() {
            Some(&mut self.deprecation_warning)
        } else {
            None
        }
    }

    ///Set the value and presence of `deprecation_warning`
    #[inline]
    pub fn set_deprecation_warning(&mut self, value: String) -> (r: &mut Self)
        ensures
            r._has@ == old(self)._has@.update(2, true),
            *r == (FeatureSupport { deprecation_warning: value, _has: r._has, ..*old(self) }),
            *final(self) == *final(r),
    {
        self._has.set_deprecation_warning();
        self.deprecation_warning = value;
        self
    }

    ///Clear the presence of `deprecation_warning`
    #[inline]
    pub fn clear_deprecation_warning(&mut self) -> (r: &mut Self)
        ensures
            r._has@ == old(self)._has@.update(2, false),
            *r == (FeatureSupport { _has: r._has, ..*old(self) }),
            *final(self) == *final(r),
    {
        self._has.clear_deprecation_warning();
        self
    }

    ///Take the value of `deprecation_warning` and clear its presence
    #[inline]
    pub fn take_deprecation_warning(&mut self) -> (r: Option<String>)
        ensures
            r == (if old(self)._has@[2] {
                Some(old(self).deprecation_warning)
            } else {
                None
            }),
            final(self)._has@ == old(self)._has@.update(2, false),
            old(self)._has@[2] ==> final(self).deprecation_warning@ == Seq::<char>::empty(),
            !old(self)._has@[2] ==> final(self).deprecation_warning == old(self).deprecation_warning,
            *final(self) == (FeatureSupport { deprecation_warning: final(self).deprecation_warning, _has: final(self)._has, ..*old(self) }),
    {
        let val = if self._has.deprecation_warning() {
            let mut v: String = String::new();
            std::mem::swap(&mut self.deprecation_warning, &mut v);
            Some(v)
        } else {
            None
        };
        self._has.clear_deprecation_warning();
        val
    }

    ///Builder method that sets the value of `deprecation_warning`. Useful for initializing the message.
    #[inline]
    pub fn init_deprecation_warning(self, value: String) -> (r: Self)
        ensures
            r._has@ == self._has@.update(2, true),
            r == (FeatureSupport { deprecation_warning: value, _has: r._has, ..self }),
    {
        let mut s = self;
        s.set_deprecation_warning(value);
        s
    }

    ///Return a reference to `edition_removed` as an `Option`
    #[inline]
    pub fn edition_removed(&self) -> (r: Option<&pb::Edition>)
        ensures
            r == (if self._has@[3] {
                Some(&self.edition_removed)
            } else {
                None
            }),
    {
        if self._has.edition_removed() {
            Some(&self.edition_removed)
        } else {
            None
        }
    }

    ///Return a mutable reference to `edition_removed` as an `Option`
    #[inline]
    pub fn mut_edition_removed(&mut self) -> (r: Option<&mut pb::Edition>)
        ensures
            old(self)._has@[3] ==> r is Some && *r->0 == old(self).edition_removed && final(self).edition_removed
                == *final(r->0) && *final(self) == (FeatureSupport { edition_removed: final(self).edition_removed, ..*old(self) }),
            !old(self)._has@[3] ==> r is None && *final(self) == *old(self),
    {
        if self._has.edition_removed() {
            Some(&mut self.edition_removed)
        } else {
            None
        }
    }

    ///Set the value and presence of `edition_removed`
    #[inline]
    pub fn set_edition_removed(&mut self, value: pb::Edition) -> (r: &mut Self)
        ensures
            r._has@ == old(self)._has@.update(3, true),
            *r == (FeatureSupport { edition_removed: value, _has: r._has, ..*old(self) }),
            *final(self) == *final(r),
    {
        self._has.set_edition_removed();
        self.edition_removed = value;
        self
    }

    ///Clear the presence of `edition_removed`
    #[inline]
    pub fn clear_edition_removed(&mut self) -> (r: &mut Self)
        ensures
            r._has@ == old(self)._has@.update(3, false),
            *r == (FeatureSupport { _has: r._has, ..*old(self) }),
            *final(self) == *final(r),
    {
        self._has.clear_edition_removed();
        self
    }

    ///Take the value of `edition_removed` and clear its presence
    #[inline]
    pub fn take_edition_removed(&mut self) -> (r: Option<pb::Edition>)
        ensures
            r == (if old(self)._has@[3] {
                Some(old(self).edition_removed)
            } else {
                None
            }),
            final(self)._has@ == old(self)._has@.update(3, false),
            old(self)._has@[3] ==> final(self).edition_removed == pb::Edition(0),
            !old(self)._has@[3] ==> final(self).edition_removed == old(self).edition_removed,
            *final(self) == (FeatureSupport { edition_removed: final(self).edition_removed, _has: final(self)._has, ..*old(self) }),
    {
        let val = if self._has.edition_removed() {
            let mut v: pb::Edition = pb::Edition::default();
            std::mem::swap(&mut self.edition_removed, &mut v);
            Some(v)
        } else {
            None
        };
        self._has.clear_edition_removed();
        val
    }

    ///Builder method that sets the value of `edition_removed`. Useful for initializing the message.
    #[inline]
    pub fn init_edition_removed(self, value: pb::Edition) -> (r: Self)
        ensures
            r._has@ == self._has@.update(3, true),
            r == (FeatureSupport { edition_removed: value, _has: r._has, ..self }),
    {
        let mut s = self;
        s.set_edition_removed(value);
        s
    }

    /// Merges the value of the field numbered `num`, with wire type `wt`, that starts at
    /// `pos` in `buf` into the message, and gives the position just past the value.
    pub fn merge_field(&mut self, num: u32, wt: u32, buf: &[u8], pos: usize) -> (r: Result<usize, DecodeError>)
        requires
            pos <= buf.len(),
        ensures
            match old(self)@.merge_field(num, wt, buf@.subrange(pos as int, buf.len() as int)) {
                Ok((m, k)) => r matches Ok(next) && next == pos + k && final(self)@ == m,
                Err(e) => r == Err::<usize, DecodeError>(e),
            },
            r matches Ok(next) ==> next <= buf.len(),
            r is Err ==> final(self)@ == old(self)@,
    {
        proof {
            reveal(FeatureSupportModel::merge_field);
        }
        match num {
            1 => self.merge_edition_introduced_field(wt, buf, pos),
            2 => self.merge_edition_deprecated_field(wt, buf, pos),
            3 => self.merge_deprecation_warning_field(wt, buf, pos),
            4 => self.merge_edition_removed_field(wt, buf, pos),
            _ => skip_value(buf, pos, buf.len(), wt),
        }
    }

    /// Merges the value of a field numbered 1, starting at `pos` in `buf`, into `edition_introduced`.
    fn merge_edition_introduced_field(&mut self, wt: u32, buf: &[u8], pos: usize) -> (r: Result<usize, DecodeError>)
        requires
            pos <= buf.len(),
        ensures
            match old(self)@.merge_field(1, wt, buf@.subrange(pos as int, buf.len() as int)) {
                Ok((m, k)) => r matches Ok(next) && next == pos + k && final(self)@ == m,
                Err(e) => r == Err::<usize, DecodeError>(e),
            },
            r matches Ok(next) ==> next <= buf.len(),
            r is Err ==> final(self)@ == old(self)@,
    {
        proof {
            reveal(FeatureSupportModel::merge_field);
        }
        let ghost m0 = self@;
        let end = buf.len();
        match read_varint(buf, pos, end) {
            Ok((v, next)) => {
                self.edition_introduced = pb::Edition(to_i32(v));
                self._has.set_edition_introduced();
                proof {
                    assert(self@ =~= (FeatureSupportModel { edition_introduced: pb::Edition(varint_as_i32(v)), _has: m0._has.update(0, true), ..m0 }));
                }
                Ok(next)
            },
            Err(e) => Err(e),
        }
    }

    /// Merges the value of a field numbered 2, starting at `pos` in `buf`, into `edition_deprecated`.
    fn merge_edition_deprecated_field(&mut self, wt: u32, buf: &[u8], pos: usize) -> (r: Result<usize, DecodeError>)
        requires
            pos <= buf.len(),
        ensures
            match old(self)@.merge_field(2, wt, buf@.subrange(pos as int, buf.len() as int)) {
                Ok((m, k)) => r matches Ok(next) && next == pos + k && final(self)@ == m,
                Err(e) => r == Err::<usize, DecodeError>(e),
            },
            r matches Ok(next) ==> next <= buf.len(),
            r is Err ==> final(self)@ == old(self)@,
    {
        proof {
            reveal(FeatureSupportModel::merge_field);
        }
        let ghost m0 = self@;
        let end = buf.len();
        match read_varint(buf, pos, end) {
            Ok((v, next)) => {
                self.edition_deprecated = pb::Edition(to_i32(v));
                self._has.set_edition_deprecated();
                proof {
                    assert(self@ =~= (FeatureSupportModel { edition_deprecated: pb::Edition(varint_as_i32(v)), _has: m0._has.update(1, true), ..m0 }));
                }
                Ok(next)
            },
            Err(e) => Err(e),
        }
    }

    /// Merges the value of a field numbered 3, starting at `pos` in `buf`, into `deprecation_warning`.
    fn merge_deprecation_warning_field(&mut self, wt: u32, buf: &[u8], pos: usize) -> (r: Result<usize, DecodeError>)
        requires
            pos <= buf.len(),
        ensures
            match old(self)@.merge_field(3, wt, buf@.subrange(pos as int, buf.len() as int)) {
                Ok((m, k)) => r matches Ok(next) && next == pos + k && final(self)@ == m,
                Err(e) => r == Err::<usize, DecodeError>(e),
            },
            r matches Ok(next) ==> next <= buf.len(),
            r is Err ==> final(self)@ == old(self)@,
    {
        proof {
            reveal(FeatureSupportModel::merge_field);
        }
        let ghost m0 = self@;
        let end = buf.len();
        match read_len(buf, pos, end) {
            Ok((a, b)) => match read_string(buf, a, b) {
                Ok(st) => {
                    let ghost t = st@;
                    self.deprecation_warning = st;
                    self._has.set_deprecation_warning();
                    proof {
                        assert(self@ =~= (FeatureSupportModel { deprecation_warning: t, _has: m0._has.update(2, true), ..m0 }));
                    }
                    Ok(b)
                },
                Err(e) => Err(e),
            },
            Err(e) => Err(e),
        }
    }

    /// Merges the value of a field numbered 4, starting at `pos` in `buf`, into `edition_removed`.
    fn merge_edition_removed_field(&mut self, wt: u32, buf: &[u8], pos: usize) -> (r: Result<usize, DecodeError>)
        requires
            pos <= buf.len(),
        ensures
            match old(self)@.merge_field(4, wt, buf@.subrange(pos as int, buf.len() as int)) {
                Ok((m, k)) => r matches Ok(next) && next == pos + k && final(self)@ == m,
                Err(e) => r == Err::<usize, DecodeError>(e),
            },
            r matches Ok(next) ==> next <= buf.len(),
            r is Err ==> final(self)@ == old(self)@,
    {
        proof {
            reveal(FeatureSupportModel::merge_field);
        }
        let ghost m0 = self@;
        let end = buf.len();
        match read_varint(buf, pos, end) {
            Ok((v, next)) => {
                self.edition_removed = pb::Edition(to_i32(v));
                self._has.set_edition_removed();
                proof {
                    assert(self@ =~= (FeatureSupportModel { edition_removed: pb::Edition(varint_as_i32(v)), _has: m0._has.update(3, true), ..m0 }));
                }
                Ok(next)
            },
            Err(e) => Err(e),
        }
    }

    /// Reads fields from `buf`, from `start` on, into the message while fewer than `len`
    /// bytes have been read, and gives the position just past the last field read.
    #[verifier::rlimit(40)]
    pub fn decode(&mut self, buf: &[u8], start: usize, len: u64) -> (r: Result<usize, DecodeError>)
        requires
            start <= buf.len(),
        ensures
            match old(self)@.decode_stream(buf@.subrange(start as int, buf.len() as int), len as int) {
                Ok((m, c)) => r matches Ok(next) && next == start + c && final(self)@ == m,
                Err(e) => r == Err::<usize, DecodeError>(e),
            },
            r matches Ok(next) ==> next <= buf.len(),
            r is Err ==> final(self)@ == old(self)@.until_error_stream(
                buf@.subrange(start as int, buf.len() as int),
                len as int,
            ),
    {
        let mut pos = start;
        while ((pos - start) as u64) < len
            invariant
                start <= pos <= buf.len(),
                old(self)@.decode_stream(buf@.subrange(start as int, buf.len() as int), len as int)
                    == shift_consumed(
                    self@.decode_stream(buf@.subrange(pos as int, buf.len() as int), len - (pos - start)),
                    (pos - start) as nat,
                ),
                old(self)@.until_error_stream(buf@.subrange(start as int, buf.len() as int), len as int)
                    == self@.until_error_stream(buf@.subrange(pos as int, buf.len() as int), len - (pos - start)),
            decreases buf.len() - pos,
        {
            let ghost s = buf@.subrange(pos as int, buf.len() as int);
            let (num, wt, p) = match read_tag(buf, pos, buf.len()) {
                Ok(x) => x,
                Err(e) => return Err(e),
            };
            if num == 0 {
                return Err(DecodeError::ZeroField);
            }
            proof {
                lemma_tag_bounds(s);
                assert(s.subrange((p - pos) as int, s.len() as int) =~= buf@.subrange(p as int, buf.len() as int));
            }
            let next = match self.merge_field(num, wt, buf, p) {
                Ok(x) => x,
                Err(e) => return Err(e),
            };
            proof {
                let rest = buf@.subrange(p as int, buf.len() as int);
                assert(rest.subrange((next - p) as int, rest.len() as int) =~= buf@.subrange(
                    next as int,
                    buf.len() as int,
                ));
            }
            pos = next;
        }
        Ok(pos)
    }

    /// Merges the fields encoded in `bytes` into the message.
    pub fn decode_from_bytes(&mut self, bytes: &[u8]) -> (r: Result<(), DecodeError>)
        ensures
            match old(self)@.merge_from(bytes@) {
                Ok(m) => r is Ok && final(self)@ == m,
                Err(e) => r == Err::<(), DecodeError>(e),
            },
            r is Err ==> final(self)@ == old(self)@.merge_until_error(bytes@),
    {
        assert(bytes@.subrange(0, bytes@.len() as int) =~= bytes@);
        match self.decode(bytes, 0, bytes.len() as u64) {
            Ok(_) => Ok(()),
            Err(e) => Err(e),
        }
    }
}

} // verus!
