//! `ExtensionRange`, with its nested types and its presence bits.
use vstd::prelude::*;
use vstd::utf8::{decode_utf8, valid_utf8};
use crate::bits::{flags_of, lemma_flags_clear, lemma_flags_get, lemma_flags_set, lemma_flags_zero};
use crate::descriptor::google_::protobuf_ as pb;
use crate::wire::{
    copy_bytes, lemma_len_bounds, lemma_varint_bounds, lemma_tag_bounds, lemma_values_prefix, parse_fixed64, parse_len, parse_packed_i32,
    parse_string, parse_tag, parse_varint, read_fixed64, read_len, read_packed_i32, read_string,
    read_tag, read_varint, shift_consumed, skip_len, skip_value, to_i32, to_i64, varint_as_i32,
    varint_as_i64, DecodeError, WIRE_TYPE_LEN,
};


verus! {

/// Presence bits of the optional fields of `ExtensionRange`: bit `i % 8` of byte `i / 8` is flag `i`.
#[derive(Debug, PartialEq)]
pub struct _Hazzer(pub [u8; 1]);

impl View for _Hazzer {
    type V = Seq<bool>;

    open spec fn view(&self) -> Seq<bool> {
        flags_of(self.0@)
    }
}

impl Default for _Hazzer {
    fn default() -> (r: Self)
        ensures
            r@ == Seq::new(8, |i: int| false),
    {
        let r = _Hazzer([0u8]);
        proof {
            lemma_flags_zero(r.0@);
            assert(r@ =~= Seq::new(8, |i: int| false));
        }
        r
    }
}

impl Clone for _Hazzer {
    fn clone(&self) -> (r: Self)
        ensures
            r == *self,
    {
        _Hazzer(self.0)
    }
}

impl _Hazzer {
    ///Query presence of `start`
    #[inline]
    pub fn start(&self) -> (r: bool)
        ensures
            r == self@[0],
    {
        proof {
            lemma_flags_get(self.0@, 0, 0);
        }
        (self.0[0] & (1u8 << 0u8)) != 0
    }

    ///Set presence of `start`
    #[inline]
    pub fn set_start(&mut self) -> (r: &mut Self)
        ensures
            r@ == old(self)@.update(0, true),
            *final(self) == *final(r),
    {
        let ghost bytes = self.0@;
        self.0[0] = self.0[0] | (1u8 << 0u8);
        proof {
            lemma_flags_set(bytes, self.0@, 0, 0);
        }
        self
    }

    ///Clear presence of `start`
    #[inline]
    pub fn clear_start(&mut self) -> (r: &mut Self)
        ensures
            r@ == old(self)@.update(0, false),
            *final(self) == *final(r),
    {
        let ghost bytes = self.0@;
        self.0[0] = self.0[0] & !(1u8 << 0u8);
        proof {
            lemma_flags_clear(bytes, self.0@, 0, 0);
        }
        self
    }

    ///Builder method that sets the presence of `start`. Useful for initializing the Hazzer.
    #[inline]
    pub fn init_start(self) -> (r: Self)
        ensures
            r@ == self@.update(0, true),
    {
        let mut s = self;
        s.set_start();
        s
    }

    ///Query presence of `end`
    #[inline]
    pub fn end(&self) -> (r: bool)
        ensures
            r == self@[1],
    {
        proof {
            lemma_flags_get(self.0@, 0, 1);
        }
        (self.0[0] & (1u8 << 1u8)) != 0
    }

    ///Set presence of `end`
    #[inline]
    pub fn set_end(&mut self) -> (r: &mut Self)
        ensures
            r@ == old(self)@.update(1, true),
            *final(self) == *final(r),
    {
        let ghost bytes = self.0@;
        self.0[0] = self.0[0] | (1u8 << 1u8);
        proof {
            lemma_flags_set(bytes, self.0@, 0, 1);
        }
        self
    }

    ///Clear presence of `end`
    #[inline]
    pub fn clear_end(&mut self) -> (r: &mut Self)
        ensures
            r@ == old(self)@.update(1, false),
            *final(self) == *final(r),
    {
        let ghost bytes = self.0@;
        self.0[0] = self.0[0] & !(1u8 << 1u8);
        proof {
            lemma_flags_clear(bytes, self.0@, 0, 1);
        }
        self
    }

    ///Builder method that sets the presence of `end`. Useful for initializing the Hazzer.
    #[inline]
    pub fn init_end(self) -> (r: Self)
        ensures
            r@ == self@.update(1, true),
    {
        let mut s = self;
        s.set_end();
        s
    }

    ///Query presence of `options`
    #[inline]
    pub fn options(&self) -> (r: bool)
        ensures
            r == self@[2],
    {
        proof {
            lemma_flags_get(self.0@, 0, 2);
        }
        (self.0[0] & (1u8 << 2u8)) != 0
    }

    ///Set presence of `options`
    #[inline]
    pub fn set_options(&mut self) -> (r: &mut Self)
        ensures
            r@ == old(self)@.update(2, true),
            *final(self) == *final(r),
    {
        let ghost bytes = self.0@;
        self.0[0] = self.0[0] | (1u8 << 2u8);
        proof {
            lemma_flags_set(bytes, self.0@, 0, 2);
        }
        self
    }

    ///Clear presence of `options`
    #[inline]
    pub fn clear_options(&mut self) -> (r: &mut Self)
        ensures
            r@ == old(self)@.update(2, false),
            *final(self) == *final(r),
    {
        let ghost bytes = self.0@;
        self.0[0] = self.0[0] & !(1u8 << 2u8);
        proof {
            lemma_flags_clear(bytes, self.0@, 0, 2);
        }
        self
    }

    ///Builder method that sets the presence of `options`. Useful for initializing the Hazzer.
    #[inline]
    pub fn init_options(self) -> (r: Self)
        ensures
            r@ == self@.update(2, true),
    {
        let mut s = self;
        s.set_options();
        s
    }
}

/// The Protobuf message `google.protobuf.DescriptorProto.ExtensionRange`.
#[derive(Debug)]
pub struct ExtensionRange {
    pub start: i32,
    pub end: i32,
    pub options: pb::ExtensionRangeOptions_::ExtensionRangeOptions,
    pub _has: _Hazzer,
}

/// The value of a `ExtensionRange` as the contracts see it.
#[verifier::ext_equal]
pub ghost struct ExtensionRangeModel {
    pub start: i32,
    pub end: i32,
    pub options: pb::ExtensionRangeOptions_::ExtensionRangeOptionsModel,
    pub _has: Seq<bool>,
}

impl View for ExtensionRange {
    type V = ExtensionRangeModel;

    open spec fn view(&self) -> ExtensionRangeModel {
        ExtensionRangeModel {
            start: self.start,
            end: self.end,
            options: self.options@,
            _has: self._has@,
        }
    }
}

impl ExtensionRangeModel {
    /// The value of a `ExtensionRange` with no field set.
    pub open spec fn empty() -> ExtensionRangeModel {
        ExtensionRangeModel {
            start: 0,
            end: 0,
            options: pb::ExtensionRangeOptions_::ExtensionRangeOptionsModel::empty(),
            _has: Seq::new(8, |i: int| false),
        }
    }

    /// The message after the value of the field numbered `num`, with wire type `wt`, at the
    /// start of `s` has been merged into it, and the length of that value. A known field is
    /// read as its own type: a later value of a singular field replaces the earlier one, and
    /// a repeated field gains the values at its end. An unknown field is skipped by its wire
    /// type and leaves the message as it was.
    #[verifier::opaque]
    pub open spec fn merge_field(self, num: u32, wt: u32, s: Seq<u8>) -> Result<(ExtensionRangeModel, nat), DecodeError>
    {
        if num == 1 {
            match parse_varint(s) {
                Ok((v, n)) => Ok(((ExtensionRangeModel { start: varint_as_i32(v), _has: self._has.update(0, true), ..self }), n)),
                Err(e) => Err(e),
            }
        } else if num == 2 {
            match parse_varint(s) {
                Ok((v, n)) => Ok(((ExtensionRangeModel { end: varint_as_i32(v), _has: self._has.update(1, true), ..self }), n)),
                Err(e) => Err(e),
            }
        } else if num == 3 {
            match parse_varint(s) {
                Ok((l, m)) => if 0 < m <= s.len() {
                    match self.options.decode_stream(s.subrange(m as int, s.len() as int), l as int) {
                        Ok((x, c)) => Ok(((ExtensionRangeModel { options: x, _has: self._has.update(2, true), ..self }), m + c)),
                        Err(e) => Err(e),
                    }
                } else {
                    Err(DecodeError::UnexpectedEof)
                },
                Err(e) => Err(e),
            }
        } else {
            match skip_len(s, wt) {
                Ok(n) => Ok((self, n)),
                Err(e) => Err(e),
            }
        }
    }

    /// The message after its fields have been read from the start of `s` while fewer than
    /// `rem` bytes have been read, and how many bytes were read. Each field is read whole,
    /// so the last one may run past `rem`. A field numbered 0 is refused.
    pub open spec fn decode_stream(self, s: Seq<u8>, rem: int) -> Result<(ExtensionRangeModel, nat), DecodeError>
        decreases s.len(),
    {
        if rem <= 0 {
            Ok((self, 0))
        } else {
            match parse_tag(s) {
                Err(e) => Err(e),
                Ok((num, wt, n)) => if num == 0 {
                    Err(DecodeError::ZeroField)
                } else if 0 < n <= s.len() {
                    let rest = s.subrange(n as int, s.len() as int);
                    match self.merge_field(num, wt, rest) {
                        Ok((m, k)) => if k <= rest.len() {
                            shift_consumed(
                                m.decode_stream(rest.subrange(k as int, rest.len() as int), rem - (n + k)),
                                n + k,
                            )
                        } else {
                            Err(DecodeError::UnexpectedEof)
                        },
                        Err(e) => Err(e),
                    }
                } else {
                    Err(DecodeError::UnexpectedEof)
                },
            }
        }
    }

    /// The message after every field in `s` has been merged into it, in order: its fields
    /// read from `s` while fewer than `s.len()` bytes have been read.
    pub open spec fn merge_from(self, s: Seq<u8>) -> Result<ExtensionRangeModel, DecodeError> {
        match self.decode_stream(s, s.len() as int) {
            Ok((m, c)) => Ok(m),
            Err(e) => Err(e),
        }
    }

    /// The message as a failed merge of the field numbered `num`, with wire type `wt`, at
    /// the start of `s` leaves it: a nested message keeps what was read into it before
    /// its own failure, and nothing else changes.
    pub open spec fn merge_field_partial(self, num: u32, wt: u32, s: Seq<u8>) -> ExtensionRangeModel {
        if num == 3 {
            match parse_varint(s) {
                Ok((l, m)) => if 0 < m <= s.len() {
                    ExtensionRangeModel { options: self.options.until_error_stream(s.subrange(m as int, s.len() as int), l as int), ..self }
                } else {
                    self
                },
                Err(e) => self,
            }
        } else {
            self
        }
    }

    /// The message after its fields have been read from the start of `s`, as in
    /// `decode_stream`, up to the first one that fails: that one leaves the message as its
    /// failed merge does, and no field after it is read.
    pub open spec fn until_error_stream(self, s: Seq<u8>, rem: int) -> ExtensionRangeModel
        decreases s.len(),
    {
        if rem <= 0 {
            self
        } else {
            match parse_tag(s) {
                Err(e) => self,
                Ok((num, wt, n)) => if num == 0 {
                    self
                } else if 0 < n <= s.len() {
                    let rest = s.subrange(n as int, s.len() as int);
                    match self.merge_field(num, wt, rest) {
                        Ok((m, k)) => if k <= rest.len() {
                            m.until_error_stream(rest.subrange(k as int, rest.len() as int), rem - (n + k))
                        } else {
                            m
                        },
                        Err(e) => self.merge_field_partial(num, wt, rest),
                    }
                } else {
                    self
                },
            }
        }
    }

    /// The message after the fields of `s` have been merged into it in order, up to the
    /// first one that fails, which leaves the message as its failed merge does. When none
    /// fails, this is what `merge_from` gives.
    pub open spec fn merge_until_error(self, s: Seq<u8>) -> ExtensionRangeModel {
        self.until_error_stream(s, s.len() as int)
    }

    /// Reading fields reads at most the whole input, and at least `rem` bytes when `rem` is
    /// positive.
    pub proof fn lemma_stream_bounds(self, s: Seq<u8>, rem: int)
        ensures
            self.decode_stream(s, rem) matches Ok((m, c)) ==> c <= s.len() && (rem > 0 ==> c >= rem) && (
            rem <= 0 ==> c == 0),
        decreases s.len(),
    {
        if rem > 0 {
            if let Ok((num, wt, n)) = parse_tag(s) {
                if num != 0 && 0 < n <= s.len() {
                    let rest = s.subrange(n as int, s.len() as int);
                    if let Ok((m, k)) = self.merge_field(num, wt, rest) {
                        if k <= rest.len() {
                            m.lemma_stream_bounds(rest.subrange(k as int, rest.len() as int), rem - (n + k));
                        }
                    }
                }
            }
        }
    }

    /// Fields that can be read from `s` read the same from `s` followed by anything.
    pub proof fn lemma_stream_prefix(self, s: Seq<u8>, b: Seq<u8>, rem: int)
        requires
            self.decode_stream(s, rem) is Ok,
        ensures
            self.decode_stream(s + b, rem) == self.decode_stream(s, rem),
        decreases s.len(),
    {
        if rem > 0 {
            lemma_values_prefix(s, b);
            let (num, wt, n) = parse_tag(s)->Ok_0;
            let rest = s.subrange(n as int, s.len() as int);
            assert((s + b).subrange(n as int, (s + b).len() as int) =~= rest + b);
            self.lemma_merge_field_prefix(num, wt, rest, b);
            let (m, k) = self.merge_field(num, wt, rest)->Ok_0;
            let t = rest.subrange(k as int, rest.len() as int);
            assert((rest + b).subrange(k as int, (rest + b).len() as int) =~= t + b);
            m.lemma_stream_prefix(t, b, rem - (n + k));
        }
    }

    proof fn lemma_merge_field_prefix(self, num: u32, wt: u32, s: Seq<u8>, b: Seq<u8>)
        requires
            self.merge_field(num, wt, s) is Ok,
        ensures
            self.merge_field(num, wt, s + b) == self.merge_field(num, wt, s),
        
    {
        reveal(ExtensionRangeModel::merge_field);
        lemma_values_prefix(s, b);
        lemma_len_bounds(s);
        if num == 3 {
            match parse_varint(s) {
                Ok((l, m)) => if 0 < m <= s.len() {
                    let t = s.subrange(m as int, s.len() as int);
                    assert((s + b).subrange(m as int, (s + b).len() as int) =~= t + b);
                    if self.options.decode_stream(t, l as int) is Ok {
                        self.options.lemma_stream_prefix(t, b, l as int);
                    }
                },
                Err(e) => {},
            }
        }
    }

    /// Reading exactly `r1` bytes of fields, then `r2` more, is reading while fewer than
    /// `r1 + r2` bytes have been read.
    proof fn lemma_stream_split(self, s: Seq<u8>, r1: int, r2: int)
        requires
            r1 >= 0,
            r2 >= 0,
            self.decode_stream(s, r1) matches Ok((m, c)) && c == r1,
        ensures
            self.decode_stream(s, r1 + r2) == shift_consumed(
                self.decode_stream(s, r1)->Ok_0.0.decode_stream(s.subrange(r1, s.len() as int), r2),
                r1 as nat,
            ),
        decreases s.len(),
    {
        if r1 > 0 {
            let (num, wt, n) = parse_tag(s)->Ok_0;
            let rest = s.subrange(n as int, s.len() as int);
            let (m, k) = self.merge_field(num, wt, rest)->Ok_0;
            let t = rest.subrange(k as int, rest.len() as int);
            m.lemma_stream_bounds(t, r1 - (n + k));
            assert(t.subrange(r1 - (n + k), t.len() as int) =~= s.subrange(r1, s.len() as int));
            m.lemma_stream_split(t, r1 - (n + k), r2);
        } else {
            assert(s.subrange(0, s.len() as int) =~= s);
        }
    }

    /// Decoding is merging: when the fields of `a` merge into the message without error,
    /// merging `a` followed by `b` gives what merging `b` into that result gives.
    pub proof fn lemma_merge_from_concat(self, a: Seq<u8>, b: Seq<u8>)
        requires
            self.merge_from(a) is Ok,
        ensures
            self.merge_from(a + b) == self.merge_from(a)->Ok_0.merge_from(b),
    {
        self.lemma_stream_bounds(a, a.len() as int);
        self.lemma_stream_prefix(a, b, a.len() as int);
        assert((a + b).len() == a.len() + b.len());
        self.lemma_stream_split(a + b, a.len() as int, b.len() as int);
        assert((a + b).subrange(a.len() as int, (a + b).len() as int) =~= b);
    }

    proof fn lemma_single_field(self, s: Seq<u8>, num: u32, wt: u32, n: nat)
        requires
            parse_tag(s) == Ok::<(u32, u32, nat), DecodeError>((num, wt, n)),
            num != 0,
            self.merge_field(num, wt, s.subrange(n as int, s.len() as int)) matches Ok((m, k)) && n + k == s.len(),
        ensures
            self.merge_from(s) == Ok::<ExtensionRangeModel, DecodeError>(self.merge_field(num, wt, s.subrange(n as int, s.len() as int))->Ok_0.0),
    {
        lemma_tag_bounds(s);
        let rest = s.subrange(n as int, s.len() as int);
        let (m, k) = self.merge_field(num, wt, rest)->Ok_0;
        assert(rest.subrange(k as int, rest.len() as int) =~= Seq::<u8>::empty());
        assert(m.decode_stream(rest.subrange(k as int, rest.len() as int), s.len() - (n + k)) == Ok::<
            (ExtensionRangeModel, nat),
            DecodeError,
        >((m, 0)));
    }

    /// A field numbered 1 holds `start`: decoding a buffer that holds just such a field,
    /// whatever its wire type, sets `start` to the low 32 bits of the varint, marks it present,
    /// and leaves every other field as it was.
    pub proof fn lemma_decode_start(self, s: Seq<u8>, wt: u32, n: nat, v: u64, k: nat)
        requires
            parse_tag(s) == Ok::<(u32, u32, nat), DecodeError>((1, wt, n)),
            parse_varint(s.subrange(n as int, s.len() as int)) == Ok::<(u64, nat), DecodeError>((v, k)),
            n + k == s.len(),
        ensures
            self.merge_from(s) == Ok::<ExtensionRangeModel, DecodeError>((ExtensionRangeModel { start: varint_as_i32(v), _has: self._has.update(0, true), ..self })),
    {
        reveal(ExtensionRangeModel::merge_field);
        self.lemma_single_field(s, 1, wt, n);
    }

    /// A field numbered 2 holds `end`: decoding a buffer that holds just such a field,
    /// whatever its wire type, sets `end` to the low 32 bits of the varint, marks it present,
    /// and leaves every other field as it was.
    pub proof fn lemma_decode_end(self, s: Seq<u8>, wt: u32, n: nat, v: u64, k: nat)
        requires
            parse_tag(s) == Ok::<(u32, u32, nat), DecodeError>((2, wt, n)),
            parse_varint(s.subrange(n as int, s.len() as int)) == Ok::<(u64, nat), DecodeError>((v, k)),
            n + k == s.len(),
        ensures
            self.merge_from(s) == Ok::<ExtensionRangeModel, DecodeError>((ExtensionRangeModel { end: varint_as_i32(v), _has: self._has.update(1, true), ..self })),
    {
        reveal(ExtensionRangeModel::merge_field);
        self.lemma_single_field(s, 2, wt, n);
    }

    /// A field numbered 3 holds `options`: decoding a buffer that holds just such a field,
    /// whatever its wire type, merges its payload into `options`, marks it present,
    /// and leaves every other field as it was.
    pub proof fn lemma_decode_options(self, s: Seq<u8>, wt: u32, n: nat, l: u64, m: nat, x: pb::ExtensionRangeOptions_::ExtensionRangeOptionsModel)
        requires
            parse_tag(s) == Ok::<(u32, u32, nat), DecodeError>((3, wt, n)),
            parse_varint(s.subrange(n as int, s.len() as int)) == Ok::<(u64, nat), DecodeError>((l, m)),
            n + m + l == s.len(),
            self.options.merge_from(s.subrange((n + m) as int, s.len() as int)) == Ok::<pb::ExtensionRangeOptions_::ExtensionRangeOptionsModel, DecodeError>(x),
        ensures
            self.merge_from(s) == Ok::<ExtensionRangeModel, DecodeError>((ExtensionRangeModel { options: x, _has: self._has.update(2, true), ..self })),
    {
        reveal(ExtensionRangeModel::merge_field);
        lemma_tag_bounds(s);
        lemma_varint_bounds(s.subrange(n as int, s.len() as int));
        assert(s.subrange(n as int, s.len() as int).subrange(m as int, s.subrange(n as int, s.len() as int).len() as int) =~= s.subrange((n + m) as int, s.len() as int));
        self.options.lemma_stream_bounds(s.subrange((n + m) as int, s.len() as int), l as int);
        self.lemma_single_field(s, 3, wt, n);
    }

    /// A field whose number this message does not define is skipped by its wire type:
    /// decoding a buffer that holds just such a field leaves the message as it was.
    pub proof fn lemma_decode_unknown(self, s: Seq<u8>, num: u32, wt: u32, n: nat, k: nat)
        requires
            parse_tag(s) == Ok::<(u32, u32, nat), DecodeError>((num, wt, n)),
            num != 0,
            num != 1 && num != 2 && num != 3,
            skip_len(s.subrange(n as int, s.len() as int), wt) == Ok::<nat, DecodeError>(k),
            n + k == s.len(),
        ensures
            self.merge_from(s) == Ok::<ExtensionRangeModel, DecodeError>(self),
    {
        reveal(ExtensionRangeModel::merge_field);
        self.lemma_single_field(s, num, wt, n);
    }
}

impl Default for ExtensionRange {
    fn default() -> (r: Self)
        ensures
            r@ == ExtensionRangeModel::empty(),
    {
        let r = ExtensionRange {
            start: 0,
            end: 0,
            options: pb::ExtensionRangeOptions_::ExtensionRangeOptions::default(),
            _has: _Hazzer::default(),
        };
        assert(r@ =~= ExtensionRangeModel::empty());
        r
    }
}

impl ExtensionRange {
    ///Return a reference to `start` as an `Option`
    #[inline]
    pub fn start(&self) -> (r: Option<&i32>)
        ensures
            r == (if self._has@[0] {
                Some(&self.start)
            } else {
                None
            }),
    {
        if self._has.start() {
            Some(&self.start)
        } else {
            None
        }
    }

    ///Return a mutable reference to `start` as an `Option`
    #[inline]
    pub fn mut_start(&mut self) -> (r: Option<&mut i32>)
        ensures
            old(self)._has@[0] ==> r is Some && *r->0 == old(self).start && final(self).start
                == *final(r->0) && *final(self) == (ExtensionRange { start: final(self).start, ..*old(self) }),
            !old(self)._has@[0] ==> r is None && *final(self) == *old(self),
    {
        if self._has.start() {
            Some(&mut self.start)
        } else {
            None
        }
    }

    ///Set the value and presence of `start`
    #[inline]
    pub fn set_start(&mut self, value: i32) -> (r: &mut Self)
        ensures
            r._has@ == old(self)._has@.update(0, true),
            *r == (ExtensionRange { start: value, _has: r._has, ..*old(self) }),
            *final(self) == *final(r),
    {
        self._has.set_start();
        self.start = value;
        self
    }

    ///Clear the presence of `start`
    #[inline]
    pub fn clear_start(&mut self) -> (r: &mut Self)
        ensures
            r._has@ == old(self)._has@.update(0, false),
            *r == (ExtensionRange { _has: r._has, ..*old(self) }),
            *final(self) == *final(r),
    {
        self._has.clear_start();
        self
    }

    ///Take the value of `start` and clear its presence
    #[inline]
    pub fn take_start(&mut self) -> (r: Option<i32>)
        ensures
            r == (if old(self)._has@[0] {
                Some(old(self).start)
            } else {
                None
            }),
            final(self)._has@ == old(self)._has@.update(0, false),
            old(self)._has@[0] ==> final(self).start == 0,
            !old(self)._has@[0] ==> final(self).start == old(self).start,
            *final(self) == (ExtensionRange { start: final(self).start, _has: final(self)._has, ..*old(self) }),
    {
        let val = if self._has.start() {
            let mut v: i32 = 0;
            std::mem::swap(&mut self.start, &mut v);
            Some(v)
        } else {
            None
        };
        self._has.clear_start();
        val
    }

    ///Builder method that sets the value of `start`. Useful for initializing the message.
    #[inline]
    pub fn init_start(self, value: i32) -> (r: Self)
        ensures
            r._has@ == self._has@.update(0, true),
            r == (ExtensionRange { start: value, _has: r._has, ..self }),
    {
        let mut s = self;
        s.set_start(value);
        s
    }

    ///Return a reference to `end` as an `Option`
    #[inline]
    pub fn end(&self) -> (r: Option<&i32>)
        ensures
            r == (if self._has@[1] {
                Some(&self.end)
            } else {
                None
            }),
    {
        if self._has.end() {
            Some(&self.end)
        } else {
            None
        }
    }

    ///Return a mutable reference to `end` as an `Option`
    #[inline]
    pub fn mut_end(&mut self) -> (r: Option<&mut i32>)
        ensures
            old(self)._has@[1] ==> r is Some && *r->0 == old(self).end && final(self).end
                == *final(r->0) && *final(self) == (ExtensionRange { end: final(self).end, ..*old(self) }),
            !old(self)._has@[1] ==> r is None && *final(self) == *old(self),
    {
        if self._has.end() {
            Some(&mut self.end)
        } else {
            None
        }
    }

    ///Set the value and presence of `end`
    #[inline]
    pub fn set_end(&mut self, value: i32) -> (r: &mut Self)
        ensures
            r._has@ == old(self)._has@.update(1, true),
            *r == (ExtensionRange { end: value, _has: r._has, ..*old(self) }),
            *final(self) == *final(r),
    {
        self._has.set_end();
        self.end = value;
        self
    }

    ///Clear the presence of `end`
    #[inline]
    pub fn clear_end(&mut self) -> (r: &mut Self)
        ensures
            r._has@ == old(self)._has@.update(1, false),
            *r == (ExtensionRange { _has: r._has, ..*old(self) }),
            *final(self) == *final(r),
    {
        self._has.clear_end();
        self
    }

    ///Take the value of `end` and clear its presence
    #[inline]
    pub fn take_end(&mut self) -> (r: Option<i32>)
        ensures
            r == (if old(self)._has@[1] {
                Some(old(self).end)
            } else {
                None
            }),
            final(self)._has@ == old(self)._has@.update(1, false),
            old(self)._has@[1] ==> final(self).end == 0,
            !old(self)._has@[1] ==> final(self).end == old(self).end,
            *final(self) == (ExtensionRange { end: final(self).end, _has: final(self)._has, ..*old(self) }),
    {
        let val = if self._has.end() {
            let mut v: i32 = 0;
            std::mem::swap(&mut self.end, &mut v);
            Some(v)
        } else {
            None
        };
        self._has.clear_end();
        val
    }

    ///Builder method that sets the value of `end`. Useful for initializing the message.
    #[inline]
    pub fn init_end(self, value: i32) -> (r: Self)
        ensures
            r._has@ == self._has@.update(1, true),
            r == (ExtensionRange { end: value, _has: r._has, ..self }),
    {
        let mut s = self;
        s.set_end(value);
        s
    }

    ///Return a reference to `options` as an `Option`
    #[inline]
    pub fn options(&self) -> (r: Option<&pb::ExtensionRangeOptions_::ExtensionRangeOptions>)
        ensures
            r == (if self._has@[2] {
                Some(&self.options)
            } else {
                None
            }),
    {
        if self._has.options() {
            Some(&self.options)
        } else {
            None
        }
    }

    ///Return a mutable reference to `options` as an `Option`
    #[inline]
    pub fn mut_options(&mut self) -> (r: Option<&mut pb::ExtensionRangeOptions_::ExtensionRangeOptions>)
        ensures
            old(self)._has@[2] ==> r is Some && *r->0 == old(self).options && final(self).options
                == *final(r->0) && *final(self) == (ExtensionRange { options: final(self).options, ..*old(self) }),
            !old(self)._has@[2] ==> r is None && *final(self) == *old(self),
    {
        if self._has.options() {
            Some(&mut self.options)
        } else {
            None
        }
    }

    ///Set the value and presence of `options`
    #[inline]
    pub fn set_options(&mut self, value: pb::ExtensionRangeOptions_::ExtensionRangeOptions) -> (r: &mut Self)
        ensures
            r._has@ == old(self)._has@.update(2, true),
            *r == (ExtensionRange { options: value, _has: r._has, ..*old(self) }),
            *final(self) == *final(r),
    {
        self._has.set_options();
        self.options = value;
        self
    }

    ///Clear the presence of `options`
    #[inline]
    pub fn clear_options(&mut self) -> (r: &mut Self)
        ensures
            r._has@ == old(self)._has@.update(2, false),
            *r == (ExtensionRange { _has: r._has, ..*old(self) }),
            *final(self) == *final(r),
    {
        self._has.clear_options();
        self
    }

    ///Take the value of `options` and clear its presence
    #[inline]
    pub fn take_options(&mut self) -> (r: Option<pb::ExtensionRangeOptions_::ExtensionRangeOptions>)
        ensures
            r == (if old(self)._has@[2] {
                Some(old(self).options)
            } else {
                None
            }),
            final(self)._has@ == old(self)._has@.update(2, false),
            old(self)._has@[2] ==> final(self).options@ == pb::ExtensionRangeOptions_::ExtensionRangeOptionsModel::empty(),
            !old(self)._has@[2] ==> final(self).options == old(self).options,
            *final(self) == (ExtensionRange { options: final(self).options, _has: final(self)._has, ..*old(self) }),
    {
        let val = if self._has.options() {
            let mut v: pb::ExtensionRangeOptions_::ExtensionRangeOptions = pb::ExtensionRangeOptions_::ExtensionRangeOptions::default();
            std::mem::swap(&mut self.options, &mut v);
            Some(v)
        } else {
            None
        };
        self._has.clear_options();
        val
    }

    ///Builder method that sets the value of `options`. Useful for initializing the message.
    #[inline]
    pub fn init_options(self, value: pb::ExtensionRangeOptions_::ExtensionRangeOptions) -> (r: Self)
        ensures
            r._has@ == self._has@.update(2, true),
            r == (ExtensionRange { options: value, _has: r._has, ..self }),
    {
        let mut s = self;
        s.set_options(value);
        s
    }

    /// Merges the value of the field numbered `num`, with wire type `wt`, that starts at
    /// `pos` in `buf` into the message, and gives the position just past the value.
    pub fn merge_field(&mut self, num: u32, wt: u32, buf: &[u8], pos: usize) -> (r: Result<usize, DecodeError>)
        requires
            pos <= buf.len(),
        ensures
            match old(self)@.merge_field(num, wt, buf@.subrange(pos as int, buf.len() as int)) {
                Ok((m, k)) => r matches Ok(next) && next == pos + k && final(self)@ == m,
                Err(e) => r == Err::<usize, DecodeError>(e),
            },
            r matches Ok(next) ==> next <= buf.len(),
            r is Err ==> final(self)@ == old(self)@.merge_field_partial(num, wt, buf@.subrange(pos as int, buf.len() as int)),
    {
        proof {
            reveal(ExtensionRangeModel::merge_field);
        }
        match num {
            1 => self.merge_start_field(wt, buf, pos),
            2 => self.merge_end_field(wt, buf, pos),
            3 => self.merge_options_field(wt, buf, pos),
            _ => skip_value(buf, pos, buf.len(), wt),
        }
    }

    /// Merges the value of a field numbered 1, starting at `pos` in `buf`, into `start`.
    fn merge_start_field(&mut self, wt: u32, buf: &[u8], pos: usize) -> (r: Result<usize, DecodeError>)
        requires
            pos <= buf.len(),
        ensures
            match old(self)@.merge_field(1, wt, buf@.subrange(pos as int, buf.len() as int)) {
                Ok((m, k)) => r matches Ok(next) && next == pos + k && final(self)@ == m,
                Err(e) => r == Err::<usize, DecodeError>(e),
            },
            r matches Ok(next) ==> next <= buf.len(),
            r is Err ==> final(self)@ == old(self)@.merge_field_partial(1, wt, buf@.subrange(pos as int, buf.len() as int)),
    {
        proof {
            reveal(ExtensionRangeModel::merge_field);
        }
        let ghost m0 = self@;
        let end = buf.len();
        match read_varint(buf, pos, end) {
            Ok((v, next)) => {
                self.start = to_i32(v);
                self._has.set_start();
                proof {
                    assert(self@ =~= (ExtensionRangeModel { start: varint_as_i32(v), _has: m0._has.update(0, true), ..m0 }));
                }
                Ok(next)
            },
            Err(e) => Err(e),
        }
    }

    /// Merges the value of a field numbered 2, starting at `pos` in `buf`, into `end`.
    fn merge_end_field(&mut self, wt: u32, buf: &[u8], pos: usize) -> (r: Result<usize, DecodeError>)
        requires
            pos <= buf.len(),
        ensures
            match old(self)@.merge_field(2, wt, buf@.subrange(pos as int, buf.len() as int)) {
                Ok((m, k)) => r matches Ok(next) && next == pos + k && final(self)@ == m,
                Err(e) => r == Err::<usize, DecodeError>(e),
            },
            r matches Ok(next) ==> next <= buf.len(),
            r is Err ==> final(self)@ == old(self)@.merge_field_partial(2, wt, buf@.subrange(pos as int, buf.len() as int)),
    {
        proof {
            reveal(ExtensionRangeModel::merge_field);
        }
        let ghost m0 = self@;
        let end = buf.len();
        match read_varint(buf, pos, end) {
            Ok((v, next)) => {
                self.end = to_i32(v);
                self._has.set_end();
                proof {
                    assert(self@ =~= (ExtensionRangeModel { end: varint_as_i32(v), _has: m0._has.update(1, true), ..m0 }));
                }
                Ok(next)
            },
            Err(e) => Err(e),
        }
    }

    /// Merges the value of a field numbered 3, starting at `pos` in `buf`, into `options`.
    fn merge_options_field(&mut self, wt: u32, buf: &[u8], pos: usize) -> (r: Result<usize, DecodeError>)
        requires
            pos <= buf.len(),
        ensures
            match old(self)@.merge_field(3, wt, buf@.subrange(pos as int, buf.len() as int)) {
                Ok((m, k)) => r matches Ok(next) && next == pos + k && final(self)@ == m,
                Err(e) => r == Err::<usize, DecodeError>(e),
            },
            r matches Ok(next) ==> next <= buf.len(),
            r is Err ==> final(self)@ == old(self)@.merge_field_partial(3, wt, buf@.subrange(pos as int, buf.len() as int)),
    {
        proof {
            reveal(ExtensionRangeModel::merge_field);
        }
        let ghost m0 = self@;
        let end = buf.len();
        match read_varint(buf, pos, end) {
            Ok((l, q)) => {
                proof {
                    assert(buf@.subrange(pos as int, end as int).subrange((q - pos) as int, (end - pos) as int) =~= buf@.subrange(q as int, end as int));
                }
                match self.options.decode(buf, q, l) {
                    Ok(next) => {
                        self._has.set_options();
                        proof {
                            assert(self@ =~= (ExtensionRangeModel { options: self.options@, _has: m0._has.update(2, true), ..m0 }));
                        }
                        Ok(next)
                    },
                    Err(e) => {
                        proof {
                            assert(self@ =~= (ExtensionRangeModel { options: self.options@, ..m0 }));
                        }
                        Err(e)
                    },
                }
            },
            Err(e) => Err(e),
        }
    }

    /// Reads fields from `buf`, from `start` on, into the message while fewer than `len`
    /// bytes have been read, and gives the position just past the last field read.
    #[verifier::rlimit(40)]
    pub fn decode(&mut self, buf: &[u8], start: usize, len: u64) -> (r: Result<usize, DecodeError>)
        requires
            start <= buf.len(),
        ensures
            match old(self)@.decode_stream(buf@.subrange(start as int, buf.len() as int), len as int) {
                Ok((m, c)) => r matches Ok(next) && next == start + c && final(self)@ == m,
                Err(e) => r == Err::<usize, DecodeError>(e),
            },
            r matches Ok(next) ==> next <= buf.len(),
            r is Err ==> final(self)@ == old(self)@.until_error_stream(
                buf@.subrange(start as int, buf.len() as int),
                len as int,
            ),
    {
        let mut pos = start;
        while ((pos - start) as u64) < len
            invariant
                start <= pos <= buf.len(),
                old(self)@.decode_stream(buf@.subrange(start as int, buf.len() as int), len as int)
                    == shift_consumed(
                    self@.decode_stream(buf@.subrange(pos as int, buf.len() as int), len - (pos - start)),
                    (pos - start) as nat,
                ),
                old(self)@.until_error_stream(buf@.subrange(start as int, buf.len() as int), len as int)
                    == self@.until_error_stream(buf@.subrange(pos as int, buf.len() as int), len - (pos - start)),
            decreases buf.len() - pos,
        {
            let ghost s = buf@.subrange(pos as int, buf.len() as int);
            let (num, wt, p) = match read_tag(buf, pos, buf.len()) {
                Ok(x) => x,
                Err(e) => return Err(e),
            };
            if num == 0 {
                return Err(DecodeError::ZeroField);
            }
            proof {
                lemma_tag_bounds(s);
                assert(s.subrange((p - pos) as int, s.len() as int) =~= buf@.subrange(p as int, buf.len() as int));
            }
            let next = match self.merge_field(num, wt, buf, p) {
                Ok(x) => x,
                Err(e) => return Err(e),
            };
            proof {
                let rest = buf@.subrange(p as int, buf.len() as int);
                assert(rest.subrange((next - p) as int, rest.len() as int) =~= buf@.subrange(
                    next as int,
                    buf.len() as int,
                ));
            }
            pos = next;
        }
        Ok(pos)
    }

    /// Merges the fields encoded in `bytes` into the message.
    pub fn decode_from_bytes(&mut self, bytes: &[u8]) -> (r: Result<(), DecodeError>)
        ensures
            match old(self)@.merge_from(bytes@) {
                Ok(m) => r is Ok && final(self)@ == m,
                Err(e) => r == Err::<(), DecodeError>(e),
            },
            r is Err ==> final(self)@ == old(self)@.merge_until_error(bytes@),
    {
        assert(bytes@.subrange(0, bytes@.len() as int) =~= bytes@);
        match self.decode(bytes, 0, bytes.len() as u64) {
            Ok(_) => Ok(()),
            Err(e) => Err(e),
        }
    }
}

} // verus!
