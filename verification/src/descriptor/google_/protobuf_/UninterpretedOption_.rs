//! `UninterpretedOption`, with its nested types and its presence bits.
use vstd::prelude::*;
use vstd::utf8::{decode_utf8, valid_utf8};
use crate::bits::{flags_of, lemma_flags_clear, lemma_flags_get, lemma_flags_set, lemma_flags_zero};
use crate::descriptor::google_::protobuf_ as pb;
use crate::wire::{
    copy_bytes, lemma_len_bounds, lemma_varint_bounds, lemma_tag_bounds, lemma_values_prefix, parse_fixed64, parse_len, parse_packed_i32,
    parse_string, parse_tag, parse_varint, read_fixed64, read_len, read_packed_i32, read_string,
    read_tag, read_varint, shift_consumed, skip_len, skip_value, to_i32, to_i64, varint_as_i32,
    varint_as_i64, DecodeError, WIRE_TYPE_LEN,
};

pub mod NamePart_;
pub use NamePart_::NamePart;

verus! {

/// Presence bits of the optional fields of `UninterpretedOption`: bit `i % 8` of byte `i / 8` is flag `i`.
#[derive(Debug, PartialEq)]
pub struct _Hazzer(pub [u8; 1]);

impl View for _Hazzer {
    type V = Seq<bool>;

    open spec fn view(&self) -> Seq<bool> {
        flags_of(self.0@)
    }
}

impl Default for _Hazzer {
    fn default() -> (r: Self)
        ensures
            r@ == Seq::new(8, |i: int| false),
    {
        let r = _Hazzer([0u8]);
        proof {
            lemma_flags_zero(r.0@);
            assert(r@ =~= Seq::new(8, |i: int| false));
        }
        r
    }
}

impl Clone for _Hazzer {
    fn clone(&self) -> (r: Self)
        ensures
            r == *self,
    {
        _Hazzer(self.0)
    }
}

impl _Hazzer {
    ///Query presence of `identifier_value`
    #[inline]
    pub fn identifier_value(&self) -> (r: bool)
        ensures
            r == self@[0],
    {
        proof {
            lemma_flags_get(self.0@, 0, 0);
        }
        (self.0[0] & (1u8 << 0u8)) != 0
    }

    ///Set presence of `identifier_value`
    #[inline]
    pub fn set_identifier_value(&mut self) -> (r: &mut Self)
        ensures
            r@ == old(self)@.update(0, true),
            *final(self) == *final(r),
    {
        let ghost bytes = self.0@;
        self.0[0] = self.0[0] | (1u8 << 0u8);
        proof {
            lemma_flags_set(bytes, self.0@, 0, 0);
        }
        self
    }

    ///Clear presence of `identifier_value`
    #[inline]
    pub fn clear_identifier_value(&mut self) -> (r: &mut Self)
        ensures
            r@ == old(self)@.update(0, false),
            *final(self) == *final(r),
    {
        let ghost bytes = self.0@;
        self.0[0] = self.0[0] & !(1u8 << 0u8);
        proof {
            lemma_flags_clear(bytes, self.0@, 0, 0);
        }
        self
    }

    ///Builder method that sets the presence of `identifier_value`. Useful for initializing the Hazzer.
    #[inline]
    pub fn init_identifier_value(self) -> (r: Self)
        ensures
            r@ == self@.update(0, true),
    {
        let mut s = self;
        s.set_identifier_value();
        s
    }

    ///Query presence of `positive_int_value`
    #[inline]
    pub fn positive_int_value(&self) -> (r: bool)
        ensures
            r == self@[1],
    {
        proof {
            lemma_flags_get(self.0@, 0, 1);
        }
        (self.0[0] & (1u8 << 1u8)) != 0
    }

    ///Set presence of `positive_int_value`
    #[inline]
    pub fn set_positive_int_value(&mut self) -> (r: &mut Self)
        ensures
            r@ == old(self)@.update(1, true),
            *final(self) == *final(r),
    {
        let ghost bytes = self.0@;
        self.0[0] = self.0[0] | (1u8 << 1u8);
        proof {
            lemma_flags_set(bytes, self.0@, 0, 1);
        }
        self
    }

    ///Clear presence of `positive_int_value`
    #[inline]
    pub fn clear_positive_int_value(&mut self) -> (r: &mut Self)
        ensures
            r@ == old(self)@.update(1, false),
            *final(self) == *final(r),
    {
        let ghost bytes = self.0@;
        self.0[0] = self.0[0] & !(1u8 << 1u8);
        proof {
            lemma_flags_clear(bytes, self.0@, 0, 1);
        }
        self
    }

    ///Builder method that sets the presence of `positive_int_value`. Useful for initializing the Hazzer.
    #[inline]
    pub fn init_positive_int_value(self) -> (r: Self)
        ensures
            r@ == self@.update(1, true),
    {
        let mut s = self;
        s.set_positive_int_value();
        s
    }

    ///Query presence of `negative_int_value`
    #[inline]
    pub fn negative_int_value(&self) -> (r: bool)
        ensures
            r == self@[2],
    {
        proof {
            lemma_flags_get(self.0@, 0, 2);
        }
        (self.0[0] & (1u8 << 2u8)) != 0
    }

    ///Set presence of `negative_int_value`
    #[inline]
    pub fn set_negative_int_value(&mut self) -> (r: &mut Self)
        ensures
            r@ == old(self)@.update(2, true),
            *final(self) == *final(r),
    {
        let ghost bytes = self.0@;
        self.0[0] = self.0[0] | (1u8 << 2u8);
        proof {
            lemma_flags_set(bytes, self.0@, 0, 2);
        }
        self
    }

    ///Clear presence of `negative_int_value`
    #[inline]
    pub fn clear_negative_int_value(&mut self) -> (r: &mut Self)
        ensures
            r@ == old(self)@.update(2, false),
            *final(self) == *final(r),
    {
        let ghost bytes = self.0@;
        self.0[0] = self.0[0] & !(1u8 << 2u8);
        proof {
            lemma_flags_clear(bytes, self.0@, 0, 2);
        }
        self
    }

    ///Builder method that sets the presence of `negative_int_value`. Useful for initializing the Hazzer.
    #[inline]
    pub fn init_negative_int_value(self) -> (r: Self)
        ensures
            r@ == self@.update(2, true),
    {
        let mut s = self;
        s.set_negative_int_value();
        s
    }

    ///Query presence of `double_value`
    #[inline]
    pub fn double_value(&self) -> (r: bool)
        ensures
            r == self@[3],
    {
        proof {
            lemma_flags_get(self.0@, 0, 3);
        }
        (self.0[0] & (1u8 << 3u8)) != 0
    }

    ///Set presence of `double_value`
    #[inline]
    pub fn set_double_value(&mut self) -> (r: &mut Self)
        ensures
            r@ == old(self)@.update(3, true),
            *final(self) == *final(r),
    {
        let ghost bytes = self.0@;
        self.0[0] = self.0[0] | (1u8 << 3u8);
        proof {
            lemma_flags_set(bytes, self.0@, 0, 3);
        }
        self
    }

    ///Clear presence of `double_value`
    #[inline]
    pub fn clear_double_value(&mut self) -> (r: &mut Self)
        ensures
            r@ == old(self)@.update(3, false),
            *final(self) == *final(r),
    {
        let ghost bytes = self.0@;
        self.0[0] = self.0[0] & !(1u8 << 3u8);
        proof {
            lemma_flags_clear(bytes, self.0@, 0, 3);
        }
        self
    }

    ///Builder method that sets the presence of `double_value`. Useful for initializing the Hazzer.
    #[inline]
    pub fn init_double_value(self) -> (r: Self)
        ensures
            r@ == self@.update(3, true),
    {
        let mut s = self;
        s.set_double_value();
        s
    }

    ///Query presence of `string_value`
    #[inline]
    pub fn string_value(&self) -> (r: bool)
        ensures
            r == self@[4],
    {
        proof {
            lemma_flags_get(self.0@, 0, 4);
        }
        (self.0[0] & (1u8 << 4u8)) != 0
    }

    ///Set presence of `string_value`
    #[inline]
    pub fn set_string_value(&mut self) -> (r: &mut Self)
        ensures
            r@ == old(self)@.update(4, true),
            *final(self) == *final(r),
    {
        let ghost bytes = self.0@;
        self.0[0] = self.0[0] | (1u8 << 4u8);
        proof {
            lemma_flags_set(bytes, self.0@, 0, 4);
        }
        self
    }

    ///Clear presence of `string_value`
    #[inline]
    pub fn clear_string_value(&mut self) -> (r: &mut Self)
        ensures
            r@ == old(self)@.update(4, false),
            *final(self) == *final(r),
    {
        let ghost bytes = self.0@;
        self.0[0] = self.0[0] & !(1u8 << 4u8);
        proof {
            lemma_flags_clear(bytes, self.0@, 0, 4);
        }
        self
    }

    ///Builder method that sets the presence of `string_value`. Useful for initializing the Hazzer.
    #[inline]
    pub fn init_string_value(self) -> (r: Self)
        ensures
            r@ == self@.update(4, true),
    {
        let mut s = self;
        s.set_string_value();
        s
    }

    ///Query presence of `aggregate_value`
    #[inline]
    pub fn aggregate_value(&self) -> (r: bool)
        ensures
            r == self@[5],
    {
        proof {
            lemma_flags_get(self.0@, 0, 5);
        }
        (self.0[0] & (1u8 << 5u8)) != 0
    }

    ///Set presence of `aggregate_value`
    #[inline]
    pub fn set_aggregate_value(&mut self) -> (r: &mut Self)
        ensures
            r@ == old(self)@.update(5, true),
            *final(self) == *final(r),
    {
        let ghost bytes = self.0@;
        self.0[0] = self.0[0] | (1u8 << 5u8);
        proof {
            lemma_flags_set(bytes, self.0@, 0, 5);
        }
        self
    }

    ///Clear presence of `aggregate_value`
    #[inline]
    pub fn clear_aggregate_value(&mut self) -> (r: &mut Self)
        ensures
            r@ == old(self)@.update(5, false),
            *final(self) == *final(r),
    {
        let ghost bytes = self.0@;
        self.0[0] = self.0[0] & !(1u8 << 5u8);
        proof {
            lemma_flags_clear(bytes, self.0@, 0, 5);
        }
        self
    }

    ///Builder method that sets the presence of `aggregate_value`. Useful for initializing the Hazzer.
    #[inline]
    pub fn init_aggregate_value(self) -> (r: Self)
        ensures
            r@ == self@.update(5, true),
    {
        let mut s = self;
        s.set_aggregate_value();
        s
    }
}

/// The Protobuf message `google.protobuf.UninterpretedOption`.
#[derive(Debug)]
pub struct UninterpretedOption {
    pub name: Vec<pb::UninterpretedOption_::NamePart_::NamePart>,
    pub identifier_value: String,
    pub positive_int_value: u64,
    pub negative_int_value: i64,
    /// The IEEE 754 bits of the `double` value.
    pub double_value: u64,
    pub string_value: Vec<u8>,
    pub aggregate_value: String,
    pub _has: _Hazzer,
}

/// The value of a `UninterpretedOption` as the contracts see it.
#[verifier::ext_equal]
pub ghost struct UninterpretedOptionModel {
    pub name: Seq<pb::UninterpretedOption_::NamePart_::NamePartModel>,
    pub identifier_value: Seq<char>,
    pub positive_int_value: u64,
    pub negative_int_value: i64,
    pub double_value: u64,
    pub string_value: Seq<u8>,
    pub aggregate_value: Seq<char>,
    pub _has: Seq<bool>,
}

impl View for UninterpretedOption {
    type V = UninterpretedOptionModel;

    open spec fn view(&self) -> UninterpretedOptionModel {
        UninterpretedOptionModel {
            name: self.name@.map_values(|m: pb::UninterpretedOption_::NamePart_::NamePart| m@),
            identifier_value: self.identifier_value@,
            positive_int_value: self.positive_int_value,
            negative_int_value: self.negative_int_value,
            double_value: self.double_value,
            string_value: self.string_value@,
            aggregate_value: self.aggregate_value@,
            _has: self._has@,
        }
    }
}

impl UninterpretedOptionModel {
    /// The value of a `UninterpretedOption` with no field set.
    pub open spec fn empty() -> UninterpretedOptionModel {
        UninterpretedOptionModel {
            name: Seq::empty(),
            identifier_value: Seq::empty(),
            positive_int_value: 0,
            negative_int_value: 0,
            double_value: 0,
            string_value: Seq::empty(),
            aggregate_value: Seq::empty(),
            _has: Seq::new(8, |i: int| false),
        }
    }

    /// The message after the value of the field numbered `num`, with wire type `wt`, at the
    /// start of `s` has been merged into it, and the length of that value. A known field is
    /// read as its own type: a later value of a singular field replaces the earlier one, and
    /// a repeated field gains the values at its end. An unknown field is skipped by its wire
    /// type and leaves the message as it was.
    #[verifier::opaque]
    pub open spec fn merge_field(self, num: u32, wt: u32, s: Seq<u8>) -> Result<(UninterpretedOptionModel, nat), DecodeError>
    {
        if num == 2 {
            match parse_varint(s) {
                Ok((l, m)) => if 0 < m <= s.len() {
                    match pb::UninterpretedOption_::NamePart_::NamePartModel::empty().decode_stream(s.subrange(m as int, s.len() as int), l as int) {
                        Ok((x, c)) => Ok(((UninterpretedOptionModel { name: self.name.push(x), ..self }), m + c)),
                        Err(e) => Err(e),
                    }
                } else {
                    Err(DecodeError::UnexpectedEof)
                },
                Err(e) => Err(e),
            }
        } else if num == 3 {
            match parse_len(s) {
                Ok((p, n)) => match parse_string(p) {
                    Ok(t) => Ok(((UninterpretedOptionModel { identifier_value: t, _has: self._has.update(0, true), ..self }), n)),
                    Err(e) => Err(e),
                },
                Err(e) => Err(e),
            }
        } else if num == 4 {
            match parse_varint(s) {
                Ok((v, n)) => Ok(((UninterpretedOptionModel { positive_int_value: v, _has: self._has.update(1, true), ..self }), n)),
                Err(e) => Err(e),
            }
        } else if num == 5 {
            match parse_varint(s) {
                Ok((v, n)) => Ok(((UninterpretedOptionModel { negative_int_value: varint_as_i64(v), _has: self._has.update(2, true), ..self }), n)),
                Err(e) => Err(e),
            }
        } else if num == 6 {
            match parse_fixed64(s) {
                Ok((v, n)) => Ok(((UninterpretedOptionModel { double_value: v, _has: self._has.update(3, true), ..self }), n)),
                Err(e) => Err(e),
            }
        } else if num == 7 {
            match parse_len(s) {
                Ok((p, n)) => Ok(((UninterpretedOptionModel { string_value: p, _has: self._has.update(4, true), ..self }), n)),
                Err(e) => Err(e),
            }
        } else if num == 8 {
            match parse_len(s) {
                Ok((p, n)) => match parse_string(p) {
                    Ok(t) => Ok(((UninterpretedOptionModel { aggregate_value: t, _has: self._has.update(5, true), ..self }), n)),
                    Err(e) => Err(e),
                },
                Err(e) => Err(e),
            }
        } else {
            match skip_len(s, wt) {
                Ok(n) => Ok((self, n)),
                Err(e) => Err(e),
            }
        }
    }

    /// The message after its fields have been read from the start of `s` while fewer than
    /// `rem` bytes have been read, and how many bytes were read. Each field is read whole,
    /// so the last one may run past `rem`. A field numbered 0 is refused.
    pub open spec fn decode_stream(self, s: Seq<u8>, rem: int) -> Result<(UninterpretedOptionModel, nat), DecodeError>
        decreases s.len(),
    {
        if rem <= 0 {
            Ok((self, 0))
        } else {
            match parse_tag(s) {
                Err(e) => Err(e),
                Ok((num, wt, n)) => if num == 0 {
                    Err(DecodeError::ZeroField)
                } else if 0 < n <= s.len() {
                    let rest = s.subrange(n as int, s.len() as int);
                    match self.merge_field(num, wt, rest) {
                        Ok((m, k)) => if k <= rest.len() {
                            shift_consumed(
                                m.decode_stream(rest.subrange(k as int, rest.len() as int), rem - (n + k)),
                                n + k,
                            )
                        } else {
                            Err(DecodeError::UnexpectedEof)
                        },
                        Err(e) => Err(e),
                    }
                } else {
                    Err(DecodeError::UnexpectedEof)
                },
            }
        }
    }

    /// The message after every field in `s` has been merged into it, in order: its fields
    /// read from `s` while fewer than `s.len()` bytes have been read.
    pub open spec fn merge_from(self, s: Seq<u8>) -> Result<UninterpretedOptionModel, DecodeError> {
        match self.decode_stream(s, s.len() as int) {
            Ok((m, c)) => Ok(m),
            Err(e) => Err(e),
        }
    }

    /// The message after its fields have been read from the start of `s`, as in
    /// `decode_stream`, up to the first one that fails: that one leaves the message as its
    /// failed merge does, and no field after it is read.
    pub open spec fn until_error_stream(self, s: Seq<u8>, rem: int) -> UninterpretedOptionModel
        decreases s.len(),
    {
        if rem <= 0 {
            self
        } else {
            match parse_tag(s) {
                Err(e) => self,
                Ok((num, wt, n)) => if num == 0 {
                    self
                } else if 0 < n <= s.len() {
                    let rest = s.subrange(n as int, s.len() as int);
                    match self.merge_field(num, wt, rest) {
                        Ok((m, k)) => if k <= rest.len() {
                            m.until_error_stream(rest.subrange(k as int, rest.len() as int), rem - (n + k))
                        } else {
                            m
                        },
                        Err(e) => self,
                    }
                } else {
                    self
                },
            }
        }
    }

    /// The message after the fields of `s` have been merged into it in order, up to the
    /// first one that fails, which leaves the message as its failed merge does. When none
    /// fails, this is what `merge_from` gives.
    pub open spec fn merge_until_error(self, s: Seq<u8>) -> UninterpretedOptionModel {
        self.until_error_stream(s, s.len() as int)
    }

    /// Reading fields reads at most the whole input, and at least `rem` bytes when `rem` is
    /// positive.
    pub proof fn lemma_stream_bounds(self, s: Seq<u8>, rem: int)
        ensures
            self.decode_stream(s, rem) matches Ok((m, c)) ==> c <= s.len() && (rem > 0 ==> c >= rem) && (
            rem <= 0 ==> c == 0),
        decreases s.len(),
    {
        if rem > 0 {
            if let Ok((num, wt, n)) = parse_tag(s) {
                if num != 0 && 0 < n <= s.len() {
                    let rest = s.subrange(n as int, s.len() as int);
                    if let Ok((m, k)) = self.merge_field(num, wt, rest) {
                        if k <= rest.len() {
                            m.lemma_stream_bounds(rest.subrange(k as int, rest.len() as int), rem - (n + k));
                        }
                    }
                }
            }
        }
    }

    /// Fields that can be read from `s` read the same from `s` followed by anything.
    pub proof fn lemma_stream_prefix(self, s: Seq<u8>, b: Seq<u8>, rem: int)
        requires
            self.decode_stream(s, rem) is Ok,
        ensures
            self.decode_stream(s + b, rem) == self.decode_stream(s, rem),
        decreases s.len(),
    {
        if rem > 0 {
            lemma_values_prefix(s, b);
            let (num, wt, n) = parse_tag(s)->Ok_0;
            let rest = s.subrange(n as int, s.len() as int);
            assert((s + b).subrange(n as int, (s + b).len() as int) =~= rest + b);
            self.lemma_merge_field_prefix(num, wt, rest, b);
            let (m, k) = self.merge_field(num, wt, rest)->Ok_0;
            let t = rest.subrange(k as int, rest.len() as int);
            assert((rest + b).subrange(k as int, (rest + b).len() as int) =~= t + b);
            m.lemma_stream_prefix(t, b, rem - (n + k));
        }
    }

    proof fn lemma_merge_field_prefix(self, num: u32, wt: u32, s: Seq<u8>, b: Seq<u8>)
        requires
            self.merge_field(num, wt, s) is Ok,
        ensures
            self.merge_field(num, wt, s + b) == self.merge_field(num, wt, s),
        
    {
        reveal(UninterpretedOptionModel::merge_field);
        lemma_values_prefix(s, b);
        lemma_len_bounds(s);
        if num == 2 {
            match parse_varint(s) {
                Ok((l, m)) => if 0 < m <= s.len() {
                    let t = s.subrange(m as int, s.len() as int);
                    assert((s + b).subrange(m as int, (s + b).len() as int) =~= t + b);
                    if pb::UninterpretedOption_::NamePart_::NamePartModel::empty().decode_stream(t, l as int) is Ok {
                        pb::UninterpretedOption_::NamePart_::NamePartModel::empty().lemma_stream_prefix(t, b, l as int);
                    }
                },
                Err(e) => {},
            }
        }
    }

    /// Reading exactly `r1` bytes of fields, then `r2` more, is reading while fewer than
    /// `r1 + r2` bytes have been read.
    proof fn lemma_stream_split(self, s: Seq<u8>, r1: int, r2: int)
        requires
            r1 >= 0,
            r2 >= 0,
            self.decode_stream(s, r1) matches Ok((m, c)) && c == r1,
        ensures
            self.decode_stream(s, r1 + r2) == shift_consumed(
                self.decode_stream(s, r1)->Ok_0.0.decode_stream(s.subrange(r1, s.len() as int), r2),
                r1 as nat,
            ),
        decreases s.len(),
    {
        if r1 > 0 {
            let (num, wt, n) = parse_tag(s)->Ok_0;
            let rest = s.subrange(n as int, s.len() as int);
            let (m, k) = self.merge_field(num, wt, rest)->Ok_0;
            let t = rest.subrange(k as int, rest.len() as int);
            m.lemma_stream_bounds(t, r1 - (n + k));
            assert(t.subrange(r1 - (n + k), t.len() as int) =~= s.subrange(r1, s.len() as int));
            m.lemma_stream_split(t, r1 - (n + k), r2);
        } else {
            assert(s.subrange(0, s.len() as int) =~= s);
        }
    }

    /// Decoding is merging: when the fields of `a` merge into the message without error,
    /// merging `a` followed by `b` gives what merging `b` into that result gives.
    pub proof fn lemma_merge_from_concat(self, a: Seq<u8>, b: Seq<u8>)
        requires
            self.merge_from(a) is Ok,
        ensures
            self.merge_from(a + b) == self.merge_from(a)->Ok_0.merge_from(b),
    {
        self.lemma_stream_bounds(a, a.len() as int);
        self.lemma_stream_prefix(a, b, a.len() as int);
        assert((a + b).len() == a.len() + b.len());
        self.lemma_stream_split(a + b, a.len() as int, b.len() as int);
        assert((a + b).subrange(a.len() as int, (a + b).len() as int) =~= b);
    }

    proof fn lemma_single_field(self, s: Seq<u8>, num: u32, wt: u32, n: nat)
        requires
            parse_tag(s) == Ok::<(u32, u32, nat), DecodeError>((num, wt, n)),
            num != 0,
            self.merge_field(num, wt, s.subrange(n as int, s.len() as int)) matches Ok((m, k)) && n + k == s.len(),
        ensures
            self.merge_from(s) == Ok::<UninterpretedOptionModel, DecodeError>(self.merge_field(num, wt, s.subrange(n as int, s.len() as int))->Ok_0.0),
    {
        lemma_tag_bounds(s);
        let rest = s.subrange(n as int, s.len() as int);
        let (m, k) = self.merge_field(num, wt, rest)->Ok_0;
        assert(rest.subrange(k as int, rest.len() as int) =~= Seq::<u8>::empty());
        assert(m.decode_stream(rest.subrange(k as int, rest.len() as int), s.len() - (n + k)) == Ok::<
            (UninterpretedOptionModel, nat),
            DecodeError,
        >((m, 0)));
    }

    /// A field numbered 2 holds `name`: decoding a buffer that holds just such a field,
    /// whatever its wire type, decodes its payload as a new message and appends it to `name`,
    /// and leaves every other field as it was.
    pub proof fn lemma_decode_name(self, s: Seq<u8>, wt: u32, n: nat, l: u64, m: nat, x: pb::UninterpretedOption_::NamePart_::NamePartModel)
        requires
            parse_tag(s) == Ok::<(u32, u32, nat), DecodeError>((2, wt, n)),
            parse_varint(s.subrange(n as int, s.len() as int)) == Ok::<(u64, nat), DecodeError>((l, m)),
            n + m + l == s.len(),
            pb::UninterpretedOption_::NamePart_::NamePartModel::empty().merge_from(s.subrange((n + m) as int, s.len() as int)) == Ok::<pb::UninterpretedOption_::NamePart_::NamePartModel, DecodeError>(x),
        ensures
            self.merge_from(s) == Ok::<UninterpretedOptionModel, DecodeError>((UninterpretedOptionModel { name: self.name.push(x), ..self })),
    {
        reveal(UninterpretedOptionModel::merge_field);
        lemma_tag_bounds(s);
        lemma_varint_bounds(s.subrange(n as int, s.len() as int));
        assert(s.subrange(n as int, s.len() as int).subrange(m as int, s.subrange(n as int, s.len() as int).len() as int) =~= s.subrange((n + m) as int, s.len() as int));
        pb::UninterpretedOption_::NamePart_::NamePartModel::empty().lemma_stream_bounds(s.subrange((n + m) as int, s.len() as int), l as int);
        self.lemma_single_field(s, 2, wt, n);
    }

    /// A field numbered 3 holds `identifier_value`: decoding a buffer that holds just such a field,
    /// whatever its wire type, sets `identifier_value` to the text of its payload, marks it present,
    /// and leaves every other field as it was.
    pub proof fn lemma_decode_identifier_value(self, s: Seq<u8>, wt: u32, n: nat, p: Seq<u8>, k: nat)
        requires
            parse_tag(s) == Ok::<(u32, u32, nat), DecodeError>((3, wt, n)),
            parse_len(s.subrange(n as int, s.len() as int)) == Ok::<(Seq<u8>, nat), DecodeError>((p, k)),
            n + k == s.len(),
            valid_utf8(p),
        ensures
            self.merge_from(s) == Ok::<UninterpretedOptionModel, DecodeError>((UninterpretedOptionModel { identifier_value: decode_utf8(p), _has: self._has.update(0, true), ..self })),
    {
        reveal(UninterpretedOptionModel::merge_field);
        self.lemma_single_field(s, 3, wt, n);
    }

    /// A field numbered 4 holds `positive_int_value`: decoding a buffer that holds just such a field,
    /// whatever its wire type, sets `positive_int_value` to the varint, marks it present,
    /// and leaves every other field as it was.
    pub proof fn lemma_decode_positive_int_value(self, s: Seq<u8>, wt: u32, n: nat, v: u64, k: nat)
        requires
            parse_tag(s) == Ok::<(u32, u32, nat), DecodeError>((4, wt, n)),
            parse_varint(s.subrange(n as int, s.len() as int)) == Ok::<(u64, nat), DecodeError>((v, k)),
            n + k == s.len(),
        ensures
            self.merge_from(s) == Ok::<UninterpretedOptionModel, DecodeError>((UninterpretedOptionModel { positive_int_value: v, _has: self._has.update(1, true), ..self })),
    {
        reveal(UninterpretedOptionModel::merge_field);
        self.lemma_single_field(s, 4, wt, n);
    }

    /// A field numbered 5 holds `negative_int_value`: decoding a buffer that holds just such a field,
    /// whatever its wire type, sets `negative_int_value` to the varint as a two's-complement `int64`, marks it present,
    /// and leaves every other field as it was.
    pub proof fn lemma_decode_negative_int_value(self, s: Seq<u8>, wt: u32, n: nat, v: u64, k: nat)
        requires
            parse_tag(s) == Ok::<(u32, u32, nat), DecodeError>((5, wt, n)),
            parse_varint(s.subrange(n as int, s.len() as int)) == Ok::<(u64, nat), DecodeError>((v, k)),
            n + k == s.len(),
        ensures
            self.merge_from(s) == Ok::<UninterpretedOptionModel, DecodeError>((UninterpretedOptionModel { negative_int_value: varint_as_i64(v), _has: self._has.update(2, true), ..self })),
    {
        reveal(UninterpretedOptionModel::merge_field);
        self.lemma_single_field(s, 5, wt, n);
    }

    /// A field numbered 6 holds `double_value`: decoding a buffer that holds just such a field,
    /// whatever its wire type, sets `double_value` to the bits of its 64-bit value, marks it present,
    /// and leaves every other field as it was.
    pub proof fn lemma_decode_double_value(self, s: Seq<u8>, wt: u32, n: nat, v: u64, k: nat)
        requires
            parse_tag(s) == Ok::<(u32, u32, nat), DecodeError>((6, wt, n)),
            parse_fixed64(s.subrange(n as int, s.len() as int)) == Ok::<(u64, nat), DecodeError>((v, k)),
            n + k == s.len(),
        ensures
            self.merge_from(s) == Ok::<UninterpretedOptionModel, DecodeError>((UninterpretedOptionModel { double_value: v, _has: self._has.update(3, true), ..self })),
    {
        reveal(UninterpretedOptionModel::merge_field);
        self.lemma_single_field(s, 6, wt, n);
    }

    /// A field numbered 7 holds `string_value`: decoding a buffer that holds just such a field,
    /// whatever its wire type, sets `string_value` to its payload, marks it present,
    /// and leaves every other field as it was.
    pub proof fn lemma_decode_string_value(self, s: Seq<u8>, wt: u32, n: nat, p: Seq<u8>, k: nat)
        requires
            parse_tag(s) == Ok::<(u32, u32, nat), DecodeError>((7, wt, n)),
            parse_len(s.subrange(n as int, s.len() as int)) == Ok::<(Seq<u8>, nat), DecodeError>((p, k)),
            n + k == s.len(),
        ensures
            self.merge_from(s) == Ok::<UninterpretedOptionModel, DecodeError>((UninterpretedOptionModel { string_value: p, _has: self._has.update(4, true), ..self })),
    {
        reveal(UninterpretedOptionModel::merge_field);
        self.lemma_single_field(s, 7, wt, n);
    }

    /// A field numbered 8 holds `aggregate_value`: decoding a buffer that holds just such a field,
    /// whatever its wire type, sets `aggregate_value` to the text of its payload, marks it present,
    /// and leaves every other field as it was.
    pub proof fn lemma_decode_aggregate_value(self, s: Seq<u8>, wt: u32, n: nat, p: Seq<u8>, k: nat)
        requires
            parse_tag(s) == Ok::<(u32, u32, nat), DecodeError>((8, wt, n)),
            parse_len(s.subrange(n as int, s.len() as int)) == Ok::<(Seq<u8>, nat), DecodeError>((p, k)),
            n + k == s.len(),
            valid_utf8(p),
        ensures
            self.merge_from(s) == Ok::<UninterpretedOptionModel, DecodeError>((UninterpretedOptionModel { aggregate_value: decode_utf8(p), _has: self._has.update(5, true), ..self })),
    {
        reveal(UninterpretedOptionModel::merge_field);
        self.lemma_single_field(s, 8, wt, n);
    }

    /// A field whose number this message does not define is skipped by its wire type:
    /// decoding a buffer that holds just such a field leaves the message as it was.
    pub proof fn lemma_decode_unknown(self, s: Seq<u8>, num: u32, wt: u32, n: nat, k: nat)
        requires
            parse_tag(s) == Ok::<(u32, u32, nat), DecodeError>((num, wt, n)),
            num != 0,
            num != 2 && num != 3 && num != 4 && num != 5 && num != 6 && num != 7 && num != 8,
            skip_len(s.subrange(n as int, s.len() as int), wt) == Ok::<nat, DecodeError>(k),
            n + k == s.len(),
        ensures
            self.merge_from(s) == Ok::<UninterpretedOptionModel, DecodeError>(self),
    {
        reveal(UninterpretedOptionModel::merge_field);
        self.lemma_single_field(s, num, wt, n);
    }
}

impl Default for UninterpretedOption {
    fn default() -> (r: Self)
        ensures
            r@ == UninterpretedOptionModel::empty(),
    {
        let r = UninterpretedOption {
            name: Vec::new(),
            identifier_value: String::new(),
            positive_int_value: 0,
            negative_int_value: 0,
            double_value: 0,
            string_value: Vec::new(),
            aggregate_value: String::new(),
            _has: _Hazzer::default(),
        };
        assert(r@ =~= UninterpretedOptionModel::empty());
        r
    }
}

impl UninterpretedOption {
    ///Return a reference to `identifier_value` as an `Option`
    #[inline]
    pub fn identifier_value(&self) -> (r: Option<&String>)
        ensures
            r == (if self._has@[0] {
                Some(&self.identifier_value)
            } else {
                None
            }),
    {
        if self._has.identifier_value() {
            Some(&self.identifier_value)
        } else {
            None
        }
    }

    ///Return a mutable reference to `identifier_value` as an `Option`
    #[inline]
    pub fn mut_identifier_value(&mut self) -> (r: Option<&mut String>)
        ensures
            old(self)._has@[0] ==> r is Some && *r->0 == old(self).identifier_value && final(self).identifier_value
                == *final(r->0) && *final(self) == (UninterpretedOption { identifier_value: final(self).identifier_value, ..*old(self) }),
            !old(self)._has@[0] ==> r is None && *final(self) == *old(self),
    {
        if self._has.identifier_value() {
            Some(&mut self.identifier_value)
        } else {
            None
        }
    }

    ///Set the value and presence of `identifier_value`
    #[inline]
    pub fn set_identifier_value(&mut self, value: String) -> (r: &mut Self)
        ensures
            r._has@ == old(self)._has@.update(0, true),
            *r == (UninterpretedOption { identifier_value: value, _has: r._has, ..*old(self) }),
            *final(self) == *final(r),
    {
        self._has.set_identifier_value();
        self.identifier_value = value;
        self
    }

    ///Clear the presence of `identifier_value`
    #[inline]
    pub fn clear_identifier_value(&mut self) -> (r: &mut Self)
        ensures
            r._has@ == old(self)._has@.update(0, false),
            *r == (UninterpretedOption { _has: r._has, ..*old(self) }),
            *final(self) == *final(r),
    {
        self._has.clear_identifier_value();
        self
    }

    ///Take the value of `identifier_value` and clear its presence
    #[inline]
    pub fn take_identifier_value(&mut self) -> (r: Option<String>)
        ensures
            r == (if old(self)._has@[0] {
                Some(old(self).identifier_value)
            } else {
                None
            }),
            final(self)._has@ == old(self)._has@.update(0, false),
            old(self)._has@[0] ==> final(self).identifier_value@ == Seq::<char>::empty(),
            !old(self)._has@[0] ==> final(self).identifier_value == old(self).identifier_value,
            *final(self) == (UninterpretedOption { identifier_value: final(self).identifier_value, _has: final(self)._has, ..*old(self) }),
    {
        let val = if self._has.identifier_value() {
            let mut v: String = String::new();
            std::mem::swap(&mut self.identifier_value, &mut v);
            Some(v)
        } else {
            None
        };
        self._has.clear_identifier_value();
        val
    }

    ///Builder method that sets the value of `identifier_value`. Useful for initializing the message.
    #[inline]
    pub fn init_identifier_value(self, value: String) -> (r: Self)
        ensures
            r._has@ == self._has@.update(0, true),
            r == (UninterpretedOption { identifier_value: value, _has: r._has, ..self }),
    {
        let mut s = self;
        s.set_identifier_value(value);
        s
    }

    ///Return a reference to `positive_int_value` as an `Option`
    #[inline]
    pub fn positive_int_value(&self) -> (r: Option<&u64>)
        ensures
            r == (if self._has@[1] {
                Some(&self.positive_int_value)
            } else {
                None
            }),
    {
        if self._has.positive_int_value() {
            Some(&self.positive_int_value)
        } else {
            None
        }
    }

    ///Return a mutable reference to `positive_int_value` as an `Option`
    #[inline]
    pub fn mut_positive_int_value(&mut self) -> (r: Option<&mut u64>)
        ensures
            old(self)._has@[1] ==> r is Some && *r->0 == old(self).positive_int_value && final(self).positive_int_value
                == *final(r->0) && *final(self) == (UninterpretedOption { positive_int_value: final(self).positive_int_value, ..*old(self) }),
            !old(self)._has@[1] ==> r is None && *final(self) == *old(self),
    {
        if self._has.positive_int_value() {
            Some(&mut self.positive_int_value)
        } else {
            None
        }
    }

    ///Set the value and presence of `positive_int_value`
    #[inline]
    pub fn set_positive_int_value(&mut self, value: u64) -> (r: &mut Self)
        ensures
            r._has@ == old(self)._has@.update(1, true),
            *r == (UninterpretedOption { positive_int_value: value, _has: r._has, ..*old(self) }),
            *final(self) == *final(r),
    {
        self._has.set_positive_int_value();
        self.positive_int_value = value;
        self
    }

    ///Clear the presence of `positive_int_value`
    #[inline]
    pub fn clear_positive_int_value(&mut self) -> (r: &mut Self)
        ensures
            r._has@ == old(self)._has@.update(1, false),
            *r == (UninterpretedOption { _has: r._has, ..*old(self) }),
            *final(self) == *final(r),
    {
        self._has.clear_positive_int_value();
        self
    }

    ///Take the value of `positive_int_value` and clear its presence
    #[inline]
    pub fn take_positive_int_value(&mut self) -> (r: Option<u64>)
        ensures
            r == (if old(self)._has@[1] {
                Some(old(self).positive_int_value)
            } else {
                None
            }),
            final(self)._has@ == old(self)._has@.update(1, false),
            old(self)._has@[1] ==> final(self).positive_int_value == 0,
            !old(self)._has@[1] ==> final(self).positive_int_value == old(self).positive_int_value,
            *final(self) == (UninterpretedOption { positive_int_value: final(self).positive_int_value, _has: final(self)._has, ..*old(self) }),
    {
        let val = if self._has.positive_int_value() {
            let mut v: u64 = 0;
            std::mem::swap(&mut self.positive_int_value, &mut v);
            Some(v)
        } else {
            None
        };
        self._has.clear_positive_int_value();
        val
    }

    ///Builder method that sets the value of `positive_int_value`. Useful for initializing the message.
    #[inline]
    pub fn init_positive_int_value(self, value: u64) -> (r: Self)
        ensures
            r._has@ == self._has@.update(1, true),
            r == (UninterpretedOption { positive_int_value: value, _has: r._has, ..self }),
    {
        let mut s = self;
        s.set_positive_int_value(value);
        s
    }

    ///Return a reference to `negative_int_value` as an `Option`
    #[inline]
    pub fn negative_int_value(&self) -> (r: Option<&i64>)
        ensures
            r == (if self._has@[2] {
                Some(&self.negative_int_value)
            } else {
                None
            }),
    {
        if self._has.negative_int_value() {
            Some(&self.negative_int_value)
        } else {
            None
        }
    }

    ///Return a mutable reference to `negative_int_value` as an `Option`
    #[inline]
    pub fn mut_negative_int_value(&mut self) -> (r: Option<&mut i64>)
        ensures
            old(self)._has@[2] ==> r is Some && *r->0 == old(self).negative_int_value && final(self).negative_int_value
                == *final(r->0) && *final(self) == (UninterpretedOption { negative_int_value: final(self).negative_int_value, ..*old(self) }),
            !old(self)._has@[2] ==> r is None && *final(self) == *old(self),
    {
        if self._has.negative_int_value() {
            Some(&mut self.negative_int_value)
        } else {
            None
        }
    }

    ///Set the value and presence of `negative_int_value`
    #[inline]
    pub fn set_negative_int_value(&mut self, value: i64) -> (r: &mut Self)
        ensures
            r._has@ == old(self)._has@.update(2, true),
            *r == (UninterpretedOption { negative_int_value: value, _has: r._has, ..*old(self) }),
            *final(self) == *final(r),
    {
        self._has.set_negative_int_value();
        self.negative_int_value = value;
        self
    }

    ///Clear the presence of `negative_int_value`
    #[inline]
    pub fn clear_negative_int_value(&mut self) -> (r: &mut Self)
        ensures
            r._has@ == old(self)._has@.update(2, false),
            *r == (UninterpretedOption { _has: r._has, ..*old(self) }),
            *final(self) == *final(r),
    {
        self._has.clear_negative_int_value();
        self
    }

    ///Take the value of `negative_int_value` and clear its presence
    #[inline]
    pub fn take_negative_int_value(&mut self) -> (r: Option<i64>)
        ensures
            r == (if old(self)._has@[2] {
                Some(old(self).negative_int_value)
            } else {
                None
            }),
            final(self)._has@ == old(self)._has@.update(2, false),
            old(self)._has@[2] ==> final(self).negative_int_value == 0,
            !old(self)._has@[2] ==> final(self).negative_int_value == old(self).negative_int_value,
            *final(self) == (UninterpretedOption { negative_int_value: final(self).negative_int_value, _has: final(self)._has, ..*old(self) }),
    {
        let val = if self._has.negative_int_value() {
            let mut v: i64 = 0;
            std::mem::swap(&mut self.negative_int_value, &mut v);
            Some(v)
        } else {
            None
        };
        self._has.clear_negative_int_value();
        val
    }

    ///Builder method that sets the value of `negative_int_value`. Useful for initializing the message.
    #[inline]
    pub fn init_negative_int_value(self, value: i64) -> (r: Self)
        ensures
            r._has@ == self._has@.update(2, true),
            r == (UninterpretedOption { negative_int_value: value, _has: r._has, ..self }),
    {
        let mut s = self;
        s.set_negative_int_value(value);
        s
    }

    ///Return a reference to `double_value` as an `Option`
    #[inline]
    pub fn double_value(&self) -> (r: Option<&u64>)
        ensures
            r == (if self._has@[3] {
                Some(&self.double_value)
            } else {
                None
            }),
    {
        if self._has.double_value() {
            Some(&self.double_value)
        } else {
            None
        }
    }

    ///Return a mutable reference to `double_value` as an `Option`
    #[inline]
    pub fn mut_double_value(&mut self) -> (r: Option<&mut u64>)
        ensures
            old(self)._has@[3] ==> r is Some && *r->0 == old(self).double_value && final(self).double_value
                == *final(r->0) && *final(self) == (UninterpretedOption { double_value: final(self).double_value, ..*old(self) }),
            !old(self)._has@[3] ==> r is None && *final(self) == *old(self),
    {
        if self._has.double_value() {
            Some(&mut self.double_value)
        } else {
            None
        }
    }

    ///Set the value and presence of `double_value`
    #[inline]
    pub fn set_double_value(&mut self, value: u64) -> (r: &mut Self)
        ensures
            r._has@ == old(self)._has@.update(3, true),
            *r == (UninterpretedOption { double_value: value, _has: r._has, ..*old(self) }),
            *final(self) == *final(r),
    {
        self._has.set_double_value();
        self.double_value = value;
        self
    }

    ///Clear the presence of `double_value`
    #[inline]
    pub fn clear_double_value(&mut self) -> (r: &mut Self)
        ensures
            r._has@ == old(self)._has@.update(3, false),
            *r == (UninterpretedOption { _has: r._has, ..*old(self) }),
            *final(self) == *final(r),
    {
        self._has.clear_double_value();
        self
    }

    ///Take the value of `double_value` and clear its presence
    #[inline]
    pub fn take_double_value(&mut self) -> (r: Option<u64>)
        ensures
            r == (if old(self)._has@[3] {
                Some(old(self).double_value)
            } else {
                None
            }),
            final(self)._has@ == old(self)._has@.update(3, false),
            old(self)._has@[3] ==> final(self).double_value == 0,
            !old(self)._has@[3] ==> final(self).double_value == old(self).double_value,
            *final(self) == (UninterpretedOption { double_value: final(self).double_value, _has: final(self)._has, ..*old(self) }),
    {
        let val = if self._has.double_value() {
            let mut v: u64 = 0;
            std::mem::swap(&mut self.double_value, &mut v);
            Some(v)
        } else {
            None
        };
        self._has.clear_double_value();
        val
    }

    ///Builder method that sets the value of `double_value`. Useful for initializing the message.
    #[inline]
    pub fn init_double_value(self, value: u64) -> (r: Self)
        ensures
            r._has@ == self._has@.update(3, true),
            r == (UninterpretedOption { double_value: value, _has: r._has, ..self }),
    {
        let mut s = self;
        s.set_double_value(value);
        s
    }

    ///Return a reference to `string_value` as an `Option`
    #[inline]
    pub fn string_value(&self) -> (r: Option<&Vec<u8>>)
        ensures
            r == (if self._has@[4] {
                Some(&self.string_value)
            } else {
                None
            }),
    {
        if self._has.string_value() {
            Some(&self.string_value)
        } else {
            None
        }
    }

    ///Return a mutable reference to `string_value` as an `Option`
    #[inline]
    pub fn mut_string_value(&mut self) -> (r: Option<&mut Vec<u8>>)
        ensures
            old(self)._has@[4] ==> r is Some && *r->0 == old(self).string_value && final(self).string_value
                == *final(r->0) && *final(self) == (UninterpretedOption { string_value: final(self).string_value, ..*old(self) }),
            !old(self)._has@[4] ==> r is None && *final(self) == *old(self),
    {
        if self._has.string_value() {
            Some(&mut self.string_value)
        } else {
            None
        }
    }

    ///Set the value and presence of `string_value`
    #[inline]
    pub fn set_string_value(&mut self, value: Vec<u8>) -> (r: &mut Self)
        ensures
            r._has@ == old(self)._has@.update(4, true),
            *r == (UninterpretedOption { string_value: value, _has: r._has, ..*old(self) }),
            *final(self) == *final(r),
    {
        self._has.set_string_value();
        self.string_value = value;
        self
    }

    ///Clear the presence of `string_value`
    #[inline]
    pub fn clear_string_value(&mut self) -> (r: &mut Self)
        ensures
            r._has@ == old(self)._has@.update(4, false),
            *r == (UninterpretedOption { _has: r._has, ..*old(self) }),
            *final(self) == *final(r),
    {
        self._has.clear_string_value();
        self
    }

    ///Take the value of `string_value` and clear its presence
    #[inline]
    pub fn take_string_value(&mut self) -> (r: Option<Vec<u8>>)
        ensures
            r == (if old(self)._has@[4] {
                Some(old(self).string_value)
            } else {
                None
            }),
            final(self)._has@ == old(self)._has@.update(4, false),
            old(self)._has@[4] ==> final(self).string_value@ == Seq::<u8>::empty(),
            !old(self)._has@[4] ==> final(self).string_value == old(self).string_value,
            *final(self) == (UninterpretedOption { string_value: final(self).string_value, _has: final(self)._has, ..*old(self) }),
    {
        let val = if self._has.string_value() {
            let mut v: Vec<u8> = Vec::new();
            std::mem::swap(&mut self.string_value, &mut v);
            Some(v)
        } else {
            None
        };
        self._has.clear_string_value();
        val
    }

    ///Builder method that sets the value of `string_value`. Useful for initializing the message.
    #[inline]
    pub fn init_string_value(self, value: Vec<u8>) -> (r: Self)
        ensures
            r._has@ == self._has@.update(4, true),
            r == (UninterpretedOption { string_value: value, _has: r._has, ..self }),
    {
        let mut s = self;
        s.set_string_value(value);
        s
    }

    ///Return a reference to `aggregate_value` as an `Option`
    #[inline]
    pub fn aggregate_value(&self) -> (r: Option<&String>)
        ensures
            r == (if self._has@[5] {
                Some(&self.aggregate_value)
            } else {
                None
            }),
    {
        if self._has.aggregate_value() {
            Some(&self.aggregate_value)
        } else {
            None
        }
    }

    ///Return a mutable reference to `aggregate_value` as an `Option`
    #[inline]
    pub fn mut_aggregate_value(&mut self) -> (r: Option<&mut String>)
        ensures
            old(self)._has@[5] ==> r is Some && *r->0 == old(self).aggregate_value && final(self).aggregate_value
                == *final(r->0) && *final(self) == (UninterpretedOption { aggregate_value: final(self).aggregate_value, ..*old(self) }),
            !old(self)._has@[5] ==> r is None && *final(self) == *old(self),
    {
        if self._has.aggregate_value() {
            Some(&mut self.aggregate_value)
        } else {
            None
        }
    }

    ///Set the value and presence of `aggregate_value`
    #[inline]
    pub fn set_aggregate_value(&mut self, value: String) -> (r: &mut Self)
        ensures
            r._has@ == old(self)._has@.update(5, true),
            *r == (UninterpretedOption { aggregate_value: value, _has: r._has, ..*old(self) }),
            *final(self) == *final(r),
    {
        self._has.set_aggregate_value();
        self.aggregate_value = value;
        self
    }

    ///Clear the presence of `aggregate_value`
    #[inline]
    pub fn clear_aggregate_value(&mut self) -> (r: &mut Self)
        ensures
            r._has@ == old(self)._has@.update(5, false),
            *r == (UninterpretedOption { _has: r._has, ..*old(self) }),
            *final(self) == *final(r),
    {
        self._has.clear_aggregate_value();
        self
    }

    ///Take the value of `aggregate_value` and clear its presence
    #[inline]
    pub fn take_aggregate_value(&mut self) -> (r: Option<String>)
        ensures
            r == (if old(self)._has@[5] {
                Some(old(self).aggregate_value)
            } else {
                None
            }),
            final(self)._has@ == old(self)._has@.update(5, false),
            old(self)._has@[5] ==> final(self).aggregate_value@ == Seq::<char>::empty(),
            !old(self)._has@[5] ==> final(self).aggregate_value == old(self).aggregate_value,
            *final(self) == (UninterpretedOption { aggregate_value: final(self).aggregate_value, _has: final(self)._has, ..*old(self) }),
    {
        let val = if self._has.aggregate_value() {
            let mut v: String = String::new();
            std::mem::swap(&mut self.aggregate_value, &mut v);
            Some(v)
        } else {
            None
        };
        self._has.clear_aggregate_value();
        val
    }

    ///Builder method that sets the value of `aggregate_value`. Useful for initializing the message.
    #[inline]
    pub fn init_aggregate_value(self, value: String) -> (r: Self)
        ensures
            r._has@ == self._has@.update(5, true),
            r == (UninterpretedOption { aggregate_value: value, _has: r._has, ..self }),
    {
        let mut s = self;
        s.set_aggregate_value(value);
        s
    }

    /// Merges the value of the field numbered `num`, with wire type `wt`, that starts at
    /// `pos` in `buf` into the message, and gives the position just past the value.
    pub fn merge_field(&mut self, num: u32, wt: u32, buf: &[u8], pos: usize) -> (r: Result<usize, DecodeError>)
        requires
            pos <= buf.len(),
        ensures
            match old(self)@.merge_field(num, wt, buf@.subrange(pos as int, buf.len() as int)) {
                Ok((m, k)) => r matches Ok(next) && next == pos + k && final(self)@ == m,
                Err(e) => r == Err::<usize, DecodeError>(e),
            },
            r matches Ok(next) ==> next <= buf.len(),
            r is Err ==> final(self)@ == old(self)@,
    {
        proof {
            reveal(UninterpretedOptionModel::merge_field);
        }
        match num {
            2 => self.merge_name_field(wt, buf, pos),
            3 => self.merge_identifier_value_field(wt, buf, pos),
            4 => self.merge_positive_int_value_field(wt, buf, pos),
            5 => self.merge_negative_int_value_field(wt, buf, pos),
            6 => self.merge_double_value_field(wt, buf, pos),
            7 => self.merge_string_value_field(wt, buf, pos),
            8 => self.merge_aggregate_value_field(wt, buf, pos),
            _ => skip_value(buf, pos, buf.len(), wt),
        }
    }

    /// Merges the value of a field numbered 2, starting at `pos` in `buf`, into `name`.
    fn merge_name_field(&mut self, wt: u32, buf: &[u8], pos: usize) -> (r: Result<usize, DecodeError>)
        requires
            pos <= buf.len(),
        ensures
            match old(self)@.merge_field(2, wt, buf@.subrange(pos as int, buf.len() as int)) {
                Ok((m, k)) => r matches Ok(next) && next == pos + k && final(self)@ == m,
                Err(e) => r == Err::<usize, DecodeError>(e),
            },
            r matches Ok(next) ==> next <= buf.len(),
            r is Err ==> final(self)@ == old(self)@,
    {
        proof {
            reveal(UninterpretedOptionModel::merge_field);
        }
        let ghost m0 = self@;
        let end = buf.len();
        match read_varint(buf, pos, end) {
            Ok((l, q)) => {
                proof {
                    assert(buf@.subrange(pos as int, end as int).subrange((q - pos) as int, (end - pos) as int) =~= buf@.subrange(q as int, end as int));
                }
                let mut v = pb::UninterpretedOption_::NamePart_::NamePart::default();
                match v.decode(buf, q, l) {
                    Ok(next) => {
                        let ghost vm = v@;
                        self.name.push(v);
                        proof {
                            assert(self@ =~= (UninterpretedOptionModel { name: m0.name.push(vm), ..m0 }));
                        }
                        Ok(next)
                    },
                    Err(e) => Err(e),
                }
            },
            Err(e) => Err(e),
        }
    }

    /// Merges the value of a field numbered 3, starting at `pos` in `buf`, into `identifier_value`.
    fn merge_identifier_value_field(&mut self, wt: u32, buf: &[u8], pos: usize) -> (r: Result<usize, DecodeError>)
        requires
            pos <= buf.len(),
        ensures
            match old(self)@.merge_field(3, wt, buf@.subrange(pos as int, buf.len() as int)) {
                Ok((m, k)) => r matches Ok(next) && next == pos + k && final(self)@ == m,
                Err(e) => r == Err::<usize, DecodeError>(e),
            },
            r matches Ok(next) ==> next <= buf.len(),
            r is Err ==> final(self)@ == old(self)@,
    {
        proof {
            reveal(UninterpretedOptionModel::merge_field);
        }
        let ghost m0 = self@;
        let end = buf.len();
        match read_len(buf, pos, end) {
            Ok((a, b)) => match read_string(buf, a, b) {
                Ok(st) => {
                    let ghost t = st@;
                    self.identifier_value = st;
                    self._has.set_identifier_value();
                    proof {
                        assert(self@ =~= (UninterpretedOptionModel { identifier_value: t, _has: m0._has.update(0, true), ..m0 }));
                    }
                    Ok(b)
                },
                Err(e) => Err(e),
            },
            Err(e) => Err(e),
        }
    }

    /// Merges the value of a field numbered 4, starting at `pos` in `buf`, into `positive_int_value`.
    fn merge_positive_int_value_field(&mut self, wt: u32, buf: &[u8], pos: usize) -> (r: Result<usize, DecodeError>)
        requires
            pos <= buf.len(),
        ensures
            match old(self)@.merge_field(4, wt, buf@.subrange(pos as int, buf.len() as int)) {
                Ok((m, k)) => r matches Ok(next) && next == pos + k && final(self)@ == m,
                Err(e) => r == Err::<usize, DecodeError>(e),
            },
            r matches Ok(next) ==> next <= buf.len(),
            r is Err ==> final(self)@ == old(self)@,
    {
        proof {
            reveal(UninterpretedOptionModel::merge_field);
        }
        let ghost m0 = self@;
        let end = buf.len();
        match read_varint(buf, pos, end) {
            Ok((v, next)) => {
                self.positive_int_value = v;
                self._has.set_positive_int_value();
                proof {
                    assert(self@ =~= (UninterpretedOptionModel { positive_int_value: v, _has: m0._has.update(1, true), ..m0 }));
                }
                Ok(next)
            },
            Err(e) => Err(e),
        }
    }

    /// Merges the value of a field numbered 5, starting at `pos` in `buf`, into `negative_int_value`.
    fn merge_negative_int_value_field(&mut self, wt: u32, buf: &[u8], pos: usize) -> (r: Result<usize, DecodeError>)
        requires
            pos <= buf.len(),
        ensures
            match old(self)@.merge_field(5, wt, buf@.subrange(pos as int, buf.len() as int)) {
                Ok((m, k)) => r matches Ok(next) && next == pos + k && final(self)@ == m,
                Err(e) => r == Err::<usize, DecodeError>(e),
            },
            r matches Ok(next) ==> next <= buf.len(),
            r is Err ==> final(self)@ == old(self)@,
    {
        proof {
            reveal(UninterpretedOptionModel::merge_field);
        }
        let ghost m0 = self@;
        let end = buf.len();
        match read_varint(buf, pos, end) {
            Ok((v, next)) => {
                self.negative_int_value = to_i64(v);
                self._has.set_negative_int_value();
                proof {
                    assert(self@ =~= (UninterpretedOptionModel { negative_int_value: varint_as_i64(v), _has: m0._has.update(2, true), ..m0 }));
                }
                Ok(next)
            },
            Err(e) => Err(e),
        }
    }

    /// Merges the value of a field numbered 6, starting at `pos` in `buf`, into `double_value`.
    fn merge_double_value_field(&mut self, wt: u32, buf: &[u8], pos: usize) -> (r: Result<usize, DecodeError>)
        requires
            pos <= buf.len(),
        ensures
            match old(self)@.merge_field(6, wt, buf@.subrange(pos as int, buf.len() as int)) {
                Ok((m, k)) => r matches Ok(next) && next == pos + k && final(self)@ == m,
                Err(e) => r == Err::<usize, DecodeError>(e),
            },
            r matches Ok(next) ==> next <= buf.len(),
            r is Err ==> final(self)@ == old(self)@,
    {
        proof {
            reveal(UninterpretedOptionModel::merge_field);
        }
        let ghost m0 = self@;
        let end = buf.len();
        match read_fixed64(buf, pos, end) {
            Ok((v, next)) => {
                self.double_value = v;
                self._has.set_double_value();
                proof {
                    assert(self@ =~= (UninterpretedOptionModel { double_value: v, _has: m0._has.update(3, true), ..m0 }));
                }
                Ok(next)
            },
            Err(e) => Err(e),
        }
    }

    /// Merges the value of a field numbered 7, starting at `pos` in `buf`, into `string_value`.
    fn merge_string_value_field(&mut self, wt: u32, buf: &[u8], pos: usize) -> (r: Result<usize, DecodeError>)
        requires
            pos <= buf.len(),
        ensures
            match old(self)@.merge_field(7, wt, buf@.subrange(pos as int, buf.len() as int)) {
                Ok((m, k)) => r matches Ok(next) && next == pos + k && final(self)@ == m,
                Err(e) => r == Err::<usize, DecodeError>(e),
            },
            r matches Ok(next) ==> next <= buf.len(),
            r is Err ==> final(self)@ == old(self)@,
    {
        proof {
            reveal(UninterpretedOptionModel::merge_field);
        }
        let ghost m0 = self@;
        let end = buf.len();
        match read_len(buf, pos, end) {
            Ok((a, b)) => {
                self.string_value = copy_bytes(buf, a, b);
                self._has.set_string_value();
                proof {
                    assert(self@ =~= (UninterpretedOptionModel { string_value: buf@.subrange(a as int, b as int), _has: m0._has.update(4, true), ..m0 }));
                }
                Ok(b)
            },
            Err(e) => Err(e),
        }
    }

    /// Merges the value of a field numbered 8, starting at `pos` in `buf`, into `aggregate_value`.
    fn merge_aggregate_value_field(&mut self, wt: u32, buf: &[u8], pos: usize) -> (r: Result<usize, DecodeError>)
        requires
            pos <= buf.len(),
        ensures
            match old(self)@.merge_field(8, wt, buf@.subrange(pos as int, buf.len() as int)) {
                Ok((m, k)) => r matches Ok(next) && next == pos + k && final(self)@ == m,
                Err(e) => r == Err::<usize, DecodeError>(e),
            },
            r matches Ok(next) ==> next <= buf.len(),
            r is Err ==> final(self)@ == old(self)@,
    {
        proof {
            reveal(UninterpretedOptionModel::merge_field);
        }
        let ghost m0 = self@;
        let end = buf.len();
        match read_len(buf, pos, end) {
            Ok((a, b)) => match read_string(buf, a, b) {
                Ok(st) => {
                    let ghost t = st@;
                    self.aggregate_value = st;
                    self._has.set_aggregate_value();
                    proof {
                        assert(self@ =~= (UninterpretedOptionModel { aggregate_value: t, _has: m0._has.update(5, true), ..m0 }));
                    }
                    Ok(b)
                },
                Err(e) => Err(e),
            },
            Err(e) => Err(e),
        }
    }

    /// Reads fields from `buf`, from `start` on, into the message while fewer than `len`
    /// bytes have been read, and gives the position just past the last field read.
    #[verifier::rlimit(40)]
    pub fn decode(&mut self, buf: &[u8], start: usize, len: u64) -> (r: Result<usize, DecodeError>)
        requires
            start <= buf.len(),
        ensures
            match old(self)@.decode_stream(buf@.subrange(start as int, buf.len() as int), len as int) {
                Ok((m, c)) => r matches Ok(next) && next == start + c && final(self)@ == m,
                Err(e) => r == Err::<usize, DecodeError>(e),
            },
            r matches Ok(next) ==> next <= buf.len(),
            r is Err ==> final(self)@ == old(self)@.until_error_stream(
                buf@.subrange(start as int, buf.len() as int),
                len as int,
            ),
    {
        let mut pos = start;
        while ((pos - start) as u64) < len
            invariant
                start <= pos <= buf.len(),
                old(self)@.decode_stream(buf@.subrange(start as int, buf.len() as int), len as int)
                    == shift_consumed(
                    self@.decode_stream(buf@.subrange(pos as int, buf.len() as int), len - (pos - start)),
                    (pos - start) as nat,
                ),
                old(self)@.until_error_stream(buf@.subrange(start as int, buf.len() as int), len as int)
                    == self@.until_error_stream(buf@.subrange(pos as int, buf.len() as int), len - (pos - start)),
            decreases buf.len() - pos,
        {
            let ghost s = buf@.subrange(pos as int, buf.len() as int);
            let (num, wt, p) = match read_tag(buf, pos, buf.len()) {
                Ok(x) => x,
                Err(e) => return Err(e),
            };
            if num == 0 {
                return Err(DecodeError::ZeroField);
            }
            proof {
                lemma_tag_bounds(s);
                assert(s.subrange((p - pos) as int, s.len() as int) =~= buf@.subrange(p as int, buf.len() as int));
            }
            let next = match self.merge_field(num, wt, buf, p) {
                Ok(x) => x,
                Err(e) => return Err(e),
            };
            proof {
                let rest = buf@.subrange(p as int, buf.len() as int);
                assert(rest.subrange((next - p) as int, rest.len() as int) =~= buf@.subrange(
                    next as int,
                    buf.len() as int,
                ));
            }
            pos = next;
        }
        Ok(pos)
    }

    /// Merges the fields encoded in `bytes` into the message.
    pub fn decode_from_bytes(&mut self, bytes: &[u8]) -> (r: Result<(), DecodeError>)
        ensures
            match old(self)@.merge_from(bytes@) {
                Ok(m) => r is Ok && final(self)@ == m,
                Err(e) => r == Err::<(), DecodeError>(e),
            },
            r is Err ==> final(self)@ == old(self)@.merge_until_error(bytes@),
    {
        assert(bytes@.subrange(0, bytes@.len() as int) =~= bytes@);
        match self.decode(bytes, 0, bytes.len() as u64) {
            Ok(_) => Ok(()),
            Err(e) => Err(e),
        }
    }
}

} // verus!
