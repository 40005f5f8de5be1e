//! `Declaration`, with its nested types and its presence bits.
use vstd::prelude::*;
use vstd::utf8::{decode_utf8, valid_utf8};
use crate::bits::{flags_of, lemma_flags_clear, lemma_flags_get, lemma_flags_set, lemma_flags_zero};
use crate::descriptor::google_::protobuf_ as pb;
use crate::wire::{
    copy_bytes, lemma_len_bounds, lemma_varint_bounds, lemma_tag_bounds, lemma_values_prefix, parse_fixed64, parse_len, parse_packed_i32,
    parse_string, parse_tag, parse_varint, read_fixed64, read_len, read_packed_i32, read_string,
    read_tag, read_varint, shift_consumed, skip_len, skip_value, to_i32, to_i64, varint_as_i32,
    varint_as_i64, DecodeError, WIRE_TYPE_LEN,
};


verus! {

/// Presence bits of the optional fields of `Declaration`: bit `i % 8` of byte `i / 8` is flag `i`.
#[derive(Debug, PartialEq)]
pub struct _Hazzer(pub [u8; 1]);

impl View for _Hazzer {
    type V = Seq<bool>;

    open spec fn view(&self) -> Seq<bool> {
        flags_of(self.0@)
    }
}

impl Default for _Hazzer {
    fn default() -> (r: Self)
        ensures
            r@ == Seq::new(8, |i: int| false),
    {
        let r = _Hazzer([0u8]);
        proof {
            lemma_flags_zero(r.0@);
            assert(r@ =~= Seq::new(8, |i: int| false));
        }
        r
    }
}

impl Clone for _Hazzer {
    fn clone(&self) -> (r: Self)
        ensures
            r == *self,
    {
        _Hazzer(self.0)
    }
}

impl _Hazzer {
    ///Query presence of `number`
    #[inline]
    pub fn number(&self) -> (r: bool)
        ensures
            r == self@[0],
    {
        proof {
            lemma_flags_get(self.0@, 0, 0);
        }
        (self.0[0] & (1u8 << 0u8)) != 0
    }

    ///Set presence of `number`
    #[inline]
    pub fn set_number(&mut self) -> (r: &mut Self)
        ensures
            r@ == old(self)@.update(0, true),
            *final(self) == *final(r),
    {
        let ghost bytes = self.0@;
        self.0[0] = self.0[0] | (1u8 << 0u8);
        proof {
            lemma_flags_set(bytes, self.0@, 0, 0);
        }
        self
    }

    ///Clear presence of `number`
    #[inline]
    pub fn clear_number(&mut self) -> (r: &mut Self)
        ensures
            r@ == old(self)@.update(0, false),
            *final(self) == *final(r),
    {
        let ghost bytes = self.0@;
        self.0[0] = self.0[0] & !(1u8 << 0u8);
        proof {
            lemma_flags_clear(bytes, self.0@, 0, 0);
        }
        self
    }

    ///Builder method that sets the presence of `number`. Useful for initializing the Hazzer.
    #[inline]
    pub fn init_number(self) -> (r: Self)
        ensures
            r@ == self@.update(0, true),
    {
        let mut s = self;
        s.set_number();
        s
    }

    ///Query presence of `full_name`
    #[inline]
    pub fn full_name(&self) -> (r: bool)
        ensures
            r == self@[1],
    {
        proof {
            lemma_flags_get(self.0@, 0, 1);
        }
        (self.0[0] & (1u8 << 1u8)) != 0
    }

    ///Set presence of `full_name`
    #[inline]
    pub fn set_full_name(&mut self) -> (r: &mut Self)
        ensures
            r@ == old(self)@.update(1, true),
            *final(self) == *final(r),
    {
        let ghost bytes = self.0@;
        self.0[0] = self.0[0] | (1u8 << 1u8);
        proof {
            lemma_flags_set(bytes, self.0@, 0, 1);
        }
        self
    }

    ///Clear presence of `full_name`
    #[inline]
    pub fn clear_full_name(&mut self) -> (r: &mut Self)
        ensures
            r@ == old(self)@.update(1, false),
            *final(self) == *final(r),
    {
        let ghost bytes = self.0@;
        self.0[0] = self.0[0] & !(1u8 << 1u8);
        proof {
            lemma_flags_clear(bytes, self.0@, 0, 1);
        }
        self
    }

    ///Builder method that sets the presence of `full_name`. Useful for initializing the Hazzer.
    #[inline]
    pub fn init_full_name(self) -> (r: Self)
        ensures
            r@ == self@.update(1, true),
    {
        let mut s = self;
        s.set_full_name();
        s
    }

    ///Query presence of `type`
    #[inline]
    pub fn type_(&self) -> (r: bool)
        ensures
            r == self@[2],
    {
        proof {
            lemma_flags_get(self.0@, 0, 2);
        }
        (self.0[0] & (1u8 << 2u8)) != 0
    }

    ///Set presence of `type`
    #[inline]
    pub fn set_type(&mut self) -> (r: &mut Self)
        ensures
            r@ == old(self)@.update(2, true),
            *final(self) == *final(r),
    {
        let ghost bytes = self.0@;
        self.0[0] = self.0[0] | (1u8 << 2u8);
        proof {
            lemma_flags_set(bytes, self.0@, 0, 2);
        }
        self
    }

    ///Clear presence of `type`
    #[inline]
    pub fn clear_type(&mut self) -> (r: &mut Self)
        ensures
            r@ == old(self)@.update(2, false),
            *final(self) == *final(r),
    {
        let ghost bytes = self.0@;
        self.0[0] = self.0[0] & !(1u8 << 2u8);
        proof {
            lemma_flags_clear(bytes, self.0@, 0, 2);
        }
        self
    }

    ///Builder method that sets the presence of `type`. Useful for initializing the Hazzer.
    #[inline]
    pub fn init_type(self) -> (r: Self)
        ensures
            r@ == self@.update(2, true),
    {
        let mut s = self;
        s.set_type();
        s
    }

    ///Query presence of `reserved`
    #[inline]
    pub fn reserved(&self) -> (r: bool)
        ensures
            r == self@[3],
    {
        proof {
            lemma_flags_get(self.0@, 0, 3);
        }
        (self.0[0] & (1u8 << 3u8)) != 0
    }

    ///Set presence of `reserved`
    #[inline]
    pub fn set_reserved(&mut self) -> (r: &mut Self)
        ensures
            r@ == old(self)@.update(3, true),
            *final(self) == *final(r),
    {
        let ghost bytes = self.0@;
        self.0[0] = self.0[0] | (1u8 << 3u8);
        proof {
            lemma_flags_set(bytes, self.0@, 0, 3);
        }
        self
    }

    ///Clear presence of `reserved`
    #[inline]
    pub fn clear_reserved(&mut self) -> (r: &mut Self)
        ensures
            r@ == old(self)@.update(3, false),
            *final(self) == *final(r),
    {
        let ghost bytes = self.0@;
        self.0[0] = self.0[0] & !(1u8 << 3u8);
        proof {
            lemma_flags_clear(bytes, self.0@, 0, 3);
        }
        self
    }

    ///Builder method that sets the presence of `reserved`. Useful for initializing the Hazzer.
    #[inline]
    pub fn init_reserved(self) -> (r: Self)
        ensures
            r@ == self@.update(3, true),
    {
        let mut s = self;
        s.set_reserved();
        s
    }

    ///Query presence of `repeated`
    #[inline]
    pub fn repeated(&self) -> (r: bool)
        ensures
            r == self@[4],
    {
        proof {
            lemma_flags_get(self.0@, 0, 4);
        }
        (self.0[0] & (1u8 << 4u8)) != 0
    }

    ///Set presence of `repeated`
    #[inline]
    pub fn set_repeated(&mut self) -> (r: &mut Self)
        ensures
            r@ == old(self)@.update(4, true),
            *final(self) == *final(r),
    {
        let ghost bytes = self.0@;
        self.0[0] = self.0[0] | (1u8 << 4u8);
        proof {
            lemma_flags_set(bytes, self.0@, 0, 4);
        }
        self
    }

    ///Clear presence of `repeated`
    #[inline]
    pub fn clear_repeated(&mut self) -> (r: &mut Self)
        ensures
            r@ == old(self)@.update(4, false),
            *final(self) == *final(r),
    {
        let ghost bytes = self.0@;
        self.0[0] = self.0[0] & !(1u8 << 4u8);
        proof {
            lemma_flags_clear(bytes, self.0@, 0, 4);
        }
        self
    }

    ///Builder method that sets the presence of `repeated`. Useful for initializing the Hazzer.
    #[inline]
    pub fn init_repeated(self) -> (r: Self)
        ensures
            r@ == self@.update(4, true),
    {
        let mut s = self;
        s.set_repeated();
        s
    }
}

/// The Protobuf message `google.protobuf.ExtensionRangeOptions.Declaration`.
#[derive(Debug)]
pub struct Declaration {
    pub number: i32,
    pub full_name: String,
    pub type_: String,
    pub reserved: bool,
    pub repeated: bool,
    pub _has: _Hazzer,
}

/// The value of a `Declaration` as the contracts see it.
#[verifier::ext_equal]
pub ghost struct DeclarationModel {
    pub number: i32,
    pub full_name: Seq<char>,
    pub type_: Seq<char>,
    pub reserved: bool,
    pub repeated: bool,
    pub _has: Seq<bool>,
}

impl View for Declaration {
    type V = DeclarationModel;

    open spec fn view(&self) -> DeclarationModel {
        DeclarationModel {
            number: self.number,
            full_name: self.full_name@,
            type_: self.type_@,
            reserved: self.reserved,
            repeated: self.repeated,
            _has: self._has@,
        }
    }
}

impl DeclarationModel {
    /// The value of a `Declaration` with no field set.
    pub open spec fn empty() -> DeclarationModel {
        DeclarationModel {
            number: 0,
            full_name: Seq::empty(),
            type_: Seq::empty(),
            reserved: false,
            repeated: false,
            _has: Seq::new(8, |i: int| false),
        }
    }

    /// The message after the value of the field numbered `num`, with wire type `wt`, at the
    /// start of `s` has been merged into it, and the length of that value. A known field is
    /// read as its own type: a later value of a singular field replaces the earlier one, and
    /// a repeated field gains the values at its end. An unknown field is skipped by its wire
    /// type and leaves the message as it was.
    #[verifier::opaque]
    pub open spec fn merge_field(self, num: u32, wt: u32, s: Seq<u8>) -> Result<(DeclarationModel, nat), DecodeError>
    {
        if num == 1 {
            match parse_varint(s) {
                Ok((v, n)) => Ok(((DeclarationModel { number: varint_as_i32(v), _has: self._has.update(0, true), ..self }), n)),
                Err(e) => Err(e),
            }
        } else if num == 2 {
            match parse_len(s) {
                Ok((p, n)) => match parse_string(p) {
                    Ok(t) => Ok(((DeclarationModel { full_name: t, _has: self._has.update(1, true), ..self }), n)),
                    Err(e) => Err(e),
                },
                Err(e) => Err(e),
            }
        } else if num == 3 {
            match parse_len(s) {
                Ok((p, n)) => match parse_string(p) {
                    Ok(t) => Ok(((DeclarationModel { type_: t, _has: self._has.update(2, true), ..self }), n)),
                    Err(e) => Err(e),
                },
                Err(e) => Err(e),
            }
        } else if num == 5 {
            match parse_varint(s) {
                Ok((v, n)) => Ok(((DeclarationModel { reserved: v != 0, _has: self._has.update(3, true), ..self }), n)),
                Err(e) => Err(e),
            }
        } else if num == 6 {
            match parse_varint(s) {
                Ok((v, n)) => Ok(((DeclarationModel { repeated: v != 0, _has: self._has.update(4, true), ..self }), n)),
                Err(e) => Err(e),
            }
        } else {
            match skip_len(s, wt) {
                Ok(n) => Ok((self, n)),
                Err(e) => Err(e),
            }
        }
    }

    /// The message after its fields have been read from the start of `s` while fewer than
    /// `rem` bytes have been read, and how many bytes were read. Each field is read whole,
    /// so the last one may run past `rem`. A field numbered 0 is refused.
    pub open spec fn decode_stream(self, s: Seq<u8>, rem: int) -> Result<(DeclarationModel, nat), DecodeError>
        decreases s.len(),
    {
        if rem <= 0 {
            Ok((self, 0))
        } else {
            match parse_tag(s) {
                Err(e) => Err(e),
                Ok((num, wt, n)) => if num == 0 {
                    Err(DecodeError::ZeroField)
                } else if 0 < n <= s.len() {
                    let rest = s.subrange(n as int, s.len() as int);
                    match self.merge_field(num, wt, rest) {
                        Ok((m, k)) => if k <= rest.len() {
                            shift_consumed(
                                m.decode_stream(rest.subrange(k as int, rest.len() as int), rem - (n + k)),
                                n + k,
                            )
                        } else {
                            Err(DecodeError::UnexpectedEof)
                        },
                        Err(e) => Err(e),
                    }
                } else {
                    Err(DecodeError::UnexpectedEof)
                },
            }
        }
    }

    /// The message after every field in `s` has been merged into it, in order: its fields
    /// read from `s` while fewer than `s.len()` bytes have been read.
    pub open spec fn merge_from(self, s: Seq<u8>) -> Result<DeclarationModel, DecodeError> {
        match self.decode_stream(s, s.len() as int) {
            Ok((m, c)) => Ok(m),
            Err(e) => Err(e),
        }
    }

    /// The message after its fields have been read from the start of `s`, as in
    /// `decode_stream`, up to the first one that fails: that one leaves the message as its
    /// failed merge does, and no field after it is read.
    pub open spec fn until_error_stream(self, s: Seq<u8>, rem: int) -> DeclarationModel
        decreases s.len(),
    {
        if rem <= 0 {
            self
        } else {
            match parse_tag(s) {
                Err(e) => self,
                Ok((num, wt, n)) => if num == 0 {
                    self
                } else if 0 < n <= s.len() {
                    let rest = s.subrange(n as int, s.len() as int);
                    match self.merge_field(num, wt, rest) {
                        Ok((m, k)) => if k <= rest.len() {
                            m.until_error_stream(rest.subrange(k as int, rest.len() as int), rem - (n + k))
                        } else {
                            m
                        },
                        Err(e) => self,
                    }
                } else {
                    self
                },
            }
        }
    }

    /// The message after the fields of `s` have been merged into it in order, up to the
    /// first one that fails, which leaves the message as its failed merge does. When none
    /// fails, this is what `merge_from` gives.
    pub open spec fn merge_until_error(self, s: Seq<u8>) -> DeclarationModel {
        self.until_error_stream(s, s.len() as int)
    }

    /// Reading fields reads at most the whole input, and at least `rem` bytes when `rem` is
    /// positive.
    pub proof fn lemma_stream_bounds(self, s: Seq<u8>, rem: int)
        ensures
            self.decode_stream(s, rem) matches Ok((m, c)) ==> c <= s.len() && (rem > 0 ==> c >= rem) && (
            rem <= 0 ==> c == 0),
        decreases s.len(),
    {
        if rem > 0 {
            if let Ok((num, wt, n)) = parse_tag(s) {
                if num != 0 && 0 < n <= s.len() {
                    let rest = s.subrange(n as int, s.len() as int);
                    if let Ok((m, k)) = self.merge_field(num, wt, rest) {
                        if k <= rest.len() {
                            m.lemma_stream_bounds(rest.subrange(k as int, rest.len() as int), rem - (n + k));
                        }
                    }
                }
            }
        }
    }

    /// Fields that can be read from `s` read the same from `s` followed by anything.
    pub proof fn lemma_stream_prefix(self, s: Seq<u8>, b: Seq<u8>, rem: int)
        requires
            self.decode_stream(s, rem) is Ok,
        ensures
            self.decode_stream(s + b, rem) == self.decode_stream(s, rem),
        decreases s.len(),
    {
        if rem > 0 {
            lemma_values_prefix(s, b);
            let (num, wt, n) = parse_tag(s)->Ok_0;
            let rest = s.subrange(n as int, s.len() as int);
            assert((s + b).subrange(n as int, (s + b).len() as int) =~= rest + b);
            self.lemma_merge_field_prefix(num, wt, rest, b);
            let (m, k) = self.merge_field(num, wt, rest)->Ok_0;
            let t = rest.subrange(k as int, rest.len() as int);
            assert((rest + b).subrange(k as int, (rest + b).len() as int) =~= t + b);
            m.lemma_stream_prefix(t, b, rem - (n + k));
        }
    }

    proof fn lemma_merge_field_prefix(self, num: u32, wt: u32, s: Seq<u8>, b: Seq<u8>)
        requires
            self.merge_field(num, wt, s) is Ok,
        ensures
            self.merge_field(num, wt, s + b) == self.merge_field(num, wt, s),
        
    {
        reveal(DeclarationModel::merge_field);
        lemma_values_prefix(s, b);
        lemma_len_bounds(s);

    }

    /// Reading exactly `r1` bytes of fields, then `r2` more, is reading while fewer than
    /// `r1 + r2` bytes have been read.
    proof fn lemma_stream_split(self, s: Seq<u8>, r1: int, r2: int)
        requires
            r1 >= 0,
            r2 >= 0,
            self.decode_stream(s, r1) matches Ok((m, c)) && c == r1,
        ensures
            self.decode_stream(s, r1 + r2) == shift_consumed(
                self.decode_stream(s, r1)->Ok_0.0.decode_stream(s.subrange(r1, s.len() as int), r2),
                r1 as nat,
            ),
        decreases s.len(),
    {
        if r1 > 0 {
            let (num, wt, n) = parse_tag(s)->Ok_0;
            let rest = s.subrange(n as int, s.len() as int);
            let (m, k) = self.merge_field(num, wt, rest)->Ok_0;
            let t = rest.subrange(k as int, rest.len() as int);
            m.lemma_stream_bounds(t, r1 - (n + k));
            assert(t.subrange(r1 - (n + k), t.len() as int) =~= s.subrange(r1, s.len() as int));
            m.lemma_stream_split(t, r1 - (n + k), r2);
        } else {
            assert(s.subrange(0, s.len() as int) =~= s);
        }
    }

    /// Decoding is merging: when the fields of `a` merge into the message without error,
    /// merging `a` followed by `b` gives what merging `b` into that result gives.
    pub proof fn lemma_merge_from_concat(self, a: Seq<u8>, b: Seq<u8>)
        requires
            self.merge_from(a) is Ok,
        ensures
            self.merge_from(a + b) == self.merge_from(a)->Ok_0.merge_from(b),
    {
        self.lemma_stream_bounds(a, a.len() as int);
        self.lemma_stream_prefix(a, b, a.len() as int);
        assert((a + b).len() == a.len() + b.len());
        self.lemma_stream_split(a + b, a.len() as int, b.len() as int);
        assert((a + b).subrange(a.len() as int, (a + b).len() as int) =~= b);
    }

    proof fn lemma_single_field(self, s: Seq<u8>, num: u32, wt: u32, n: nat)
        requires
            parse_tag(s) == Ok::<(u32, u32, nat), DecodeError>((num, wt, n)),
            num != 0,
            self.merge_field(num, wt, s.subrange(n as int, s.len() as int)) matches Ok((m, k)) && n + k == s.len(),
        ensures
            self.merge_from(s) == Ok::<DeclarationModel, DecodeError>(self.merge_field(num, wt, s.subrange(n as int, s.len() as int))->Ok_0.0),
    {
        lemma_tag_bounds(s);
        let rest = s.subrange(n as int, s.len() as int);
        let (m, k) = self.merge_field(num, wt, rest)->Ok_0;
        assert(rest.subrange(k as int, rest.len() as int) =~= Seq::<u8>::empty());
        assert(m.decode_stream(rest.subrange(k as int, rest.len() as int), s.len() - (n + k)) == Ok::<
            (DeclarationModel, nat),
            DecodeError,
        >((m, 0)));
    }

    /// A field numbered 1 holds `number`: decoding a buffer that holds just such a field,
    /// whatever its wire type, sets `number` to the low 32 bits of the varint, marks it present,
    /// and leaves every other field as it was.
    pub proof fn lemma_decode_number(self, s: Seq<u8>, wt: u32, n: nat, v: u64, k: nat)
        requires
            parse_tag(s) == Ok::<(u32, u32, nat), DecodeError>((1, wt, n)),
            parse_varint(s.subrange(n as int, s.len() as int)) == Ok::<(u64, nat), DecodeError>((v, k)),
            n + k == s.len(),
        ensures
            self.merge_from(s) == Ok::<DeclarationModel, DecodeError>((DeclarationModel { number: varint_as_i32(v), _has: self._has.update(0, true), ..self })),
    {
        reveal(DeclarationModel::merge_field);
        self.lemma_single_field(s, 1, wt, n);
    }

    /// A field numbered 2 holds `full_name`: decoding a buffer that holds just such a field,
    /// whatever its wire type, sets `full_name` to the text of its payload, marks it present,
    /// and leaves every other field as it was.
    pub proof fn lemma_decode_full_name(self, s: Seq<u8>, wt: u32, n: nat, p: Seq<u8>, k: nat)
        requires
            parse_tag(s) == Ok::<(u32, u32, nat), DecodeError>((2, wt, n)),
            parse_len(s.subrange(n as int, s.len() as int)) == Ok::<(Seq<u8>, nat), DecodeError>((p, k)),
            n + k == s.len(),
            valid_utf8(p),
        ensures
            self.merge_from(s) == Ok::<DeclarationModel, DecodeError>((DeclarationModel { full_name: decode_utf8(p), _has: self._has.update(1, true), ..self })),
    {
        reveal(DeclarationModel::merge_field);
        self.lemma_single_field(s, 2, wt, n);
    }

    /// A field numbered 3 holds `type`: decoding a buffer that holds just such a field,
    /// whatever its wire type, sets `type` to the text of its payload, marks it present,
    /// and leaves every other field as it was.
    pub proof fn lemma_decode_type(self, s: Seq<u8>, wt: u32, n: nat, p: Seq<u8>, k: nat)
        requires
            parse_tag(s) == Ok::<(u32, u32, nat), DecodeError>((3, wt, n)),
            parse_len(s.subrange(n as int, s.len() as int)) == Ok::<(Seq<u8>, nat), DecodeError>((p, k)),
            n + k == s.len(),
            valid_utf8(p),
        ensures
            self.merge_from(s) == Ok::<DeclarationModel, DecodeError>((DeclarationModel { type_: decode_utf8(p), _has: self._has.update(2, true), ..self })),
    {
        reveal(DeclarationModel::merge_field);
        self.lemma_single_field(s, 3, wt, n);
    }

    /// A field numbered 5 holds `reserved`: decoding a buffer that holds just such a field,
    /// whatever its wire type, sets `reserved` to whether the varint is nonzero, marks it present,
    /// and leaves every other field as it was.
    pub proof fn lemma_decode_reserved(self, s: Seq<u8>, wt: u32, n: nat, v: u64, k: nat)
        requires
            parse_tag(s) == Ok::<(u32, u32, nat), DecodeError>((5, wt, n)),
            parse_varint(s.subrange(n as int, s.len() as int)) == Ok::<(u64, nat), DecodeError>((v, k)),
            n + k == s.len(),
        ensures
            self.merge_from(s) == Ok::<DeclarationModel, DecodeError>((DeclarationModel { reserved: v != 0, _has: self._has.update(3, true), ..self })),
    {
        reveal(DeclarationModel::merge_field);
        self.lemma_single_field(s, 5, wt, n);
    }

    /// A field numbered 6 holds `repeated`: decoding a buffer that holds just such a field,
    /// whatever its wire type, sets `repeated` to whether the varint is nonzero, marks it present,
    /// and leaves every other field as it was.
    pub proof fn lemma_decode_repeated(self, s: Seq<u8>, wt: u32, n: nat, v: u64, k: nat)
        requires
            parse_tag(s) == Ok::<(u32, u32, nat), DecodeError>((6, wt, n)),
            parse_varint(s.subrange(n as int, s.len() as int)) == Ok::<(u64, nat), DecodeError>((v, k)),
            n + k == s.len(),
        ensures
            self.merge_from(s) == Ok::<DeclarationModel, DecodeError>((DeclarationModel { repeated: v != 0, _has: self._has.update(4, true), ..self })),
    {
        reveal(DeclarationModel::merge_field);
        self.lemma_single_field(s, 6, wt, n);
    }

    /// A field whose number this message does not define is skipped by its wire type:
    /// decoding a buffer that holds just such a field leaves the message as it was.
    pub proof fn lemma_decode_unknown(self, s: Seq<u8>, num: u32, wt: u32, n: nat, k: nat)
        requires
            parse_tag(s) == Ok::<(u32, u32, nat), DecodeError>((num, wt, n)),
            num != 0,
            num != 1 && num != 2 && num != 3 && num != 5 && num != 6,
            skip_len(s.subrange(n as int, s.len() as int), wt) == Ok::<nat, DecodeError>(k),
            n + k == s.len(),
        ensures
            self.merge_from(s) == Ok::<DeclarationModel, DecodeError>(self),
    {
        reveal(DeclarationModel::merge_field);
        self.lemma_single_field(s, num, wt, n);
    }
}

impl Default for Declaration {
    fn default() -> (r: Self)
        ensures
            r@ == DeclarationModel::empty(),
    {
        let r = Declaration {
            number: 0,
            full_name: String::new(),
            type_: String::new(),
            reserved: false,
            repeated: false,
            _has: _Hazzer::default(),
        };
        assert(r@ =~= DeclarationModel::empty());
        r
    }
}

impl Declaration {
    ///Return a reference to `number` as an `Option`
    #[inline]
    pub fn number(&self) -> (r: Option<&i32>)
        ensures
            r == (if self._has@[0] {
                Some(&self.number)
            } else {
                None
            }),
    {
        if self._has.number() {
            Some(&self.number)
        } else {
            None
        }
    }

    ///Return a mutable reference to `number` as an `Option`
    #[inline]
    pub fn mut_number(&mut self) -> (r: Option<&mut i32>)
        ensures
            old(self)._has@[0] ==> r is Some && *r->0 == old(self).number && final(self).number
                == *final(r->0) && *final(self) == (Declaration { number: final(self).number, ..*old(self) }),
            !old(self)._has@[0] ==> r is None && *final(self) == *old(self),
    {
        if self._has.number() {
            Some(&mut self.number)
        } else {
            None
        }
    }

    ///Set the value and presence of `number`
    #[inline]
    pub fn set_number(&mut self, value: i32) -> (r: &mut Self)
        ensures
            r._has@ == old(self)._has@.update(0, true),
            *r == (Declaration { number: value, _has: r._has, ..*old(self) }),
            *final(self) == *final(r),
    {
        self._has.set_number();
        self.number = value;
        self
    }

    ///Clear the presence of `number`
    #[inline]
    pub fn clear_number(&mut self) -> (r: &mut Self)
        ensures
            r._has@ == old(self)._has@.update(0, false),
            *r == (Declaration { _has: r._has, ..*old(self) }),
            *final(self) == *final(r),
    {
        self._has.clear_number();
        self
    }

    ///Take the value of `number` and clear its presence
    #[inline]
    pub fn take_number(&mut self) -> (r: Option<i32>)
        ensures
            r == (if old(self)._has@[0] {
                Some(old(self).number)
            } else {
                None
            }),
            final(self)._has@ == old(self)._has@.update(0, false),
            old(self)._has@[0] ==> final(self).number == 0,
            !old(self)._has@[0] ==> final(self).number == old(self).number,
            *final(self) == (Declaration { number: final(self).number, _has: final(self)._has, ..*old(self) }),
    {
        let val = if self._has.number() {
            let mut v: i32 = 0;
            std::mem::swap(&mut self.number, &mut v);
            Some(v)
        } else {
            None
        };
        self._has.clear_number();
        val
    }

    ///Builder method that sets the value of `number`. Useful for initializing the message.
    #[inline]
    pub fn init_number(self, value: i32) -> (r: Self)
        ensures
            r._has@ == self._has@.update(0, true),
            r == (Declaration { number: value, _has: r._has, ..self }),
    {
        let mut s = self;
        s.set_number(value);
        s
    }

    ///Return a reference to `full_name` as an `Option`
    #[inline]
    pub fn full_name(&self) -> (r: Option<&String>)
        ensures
            r == (if self._has@[1] {
                Some(&self.full_name)
            } else {
                None
            }),
    {
        if self._has.full_name() {
            Some(&self.full_name)
        } else {
            None
        }
    }

    ///Return a mutable reference to `full_name` as an `Option`
    #[inline]
    pub fn mut_full_name(&mut self) -> (r: Option<&mut String>)
        ensures
            old(self)._has@[1] ==> r is Some && *r->0 == old(self).full_name && final(self).full_name
                == *final(r->0) && *final(self) == (Declaration { full_name: final(self).full_name, ..*old(self) }),
            !old(self)._has@[1] ==> r is None && *final(self) == *old(self),
    {
        if self._has.full_name() {
            Some(&mut self.full_name)
        } else {
            None
        }
    }

    ///Set the value and presence of `full_name`
    #[inline]
    pub fn set_full_name(&mut self, value: String) -> (r: &mut Self)
        ensures
            r._has@ == old(self)._has@.update(1, true),
            *r == (Declaration { full_name: value, _has: r._has, ..*old(self) }),
            *final(self) == *final(r),
    {
        self._has.set_full_name();
        self.full_name = value;
        self
    }

    ///Clear the presence of `full_name`
    #[inline]
    pub fn clear_full_name(&mut self) -> (r: &mut Self)
        ensures
            r._has@ == old(self)._has@.update(1, false),
            *r == (Declaration { _has: r._has, ..*old(self) }),
            *final(self) == *final(r),
    {
        self._has.clear_full_name();
        self
    }

    ///Take the value of `full_name` and clear its presence
    #[inline]
    pub fn take_full_name(&mut self) -> (r: Option<String>)
        ensures
            r == (if old(self)._has@[1] {
                Some(old(self).full_name)
            } else {
                None
            }),
            final(self)._has@ == old(self)._has@.update(1, false),
            old(self)._has@[1] ==> final(self).full_name@ == Seq::<char>::empty(),
            !old(self)._has@[1] ==> final(self).full_name == old(self).full_name,
            *final(self) == (Declaration { full_name: final(self).full_name, _has: final(self)._has, ..*old(self) }),
    {
        let val = if self._has.full_name() {
            let mut v: String = String::new();
            std::mem::swap(&mut self.full_name, &mut v);
            Some(v)
        } else {
            None
        };
        self._has.clear_full_name();
        val
    }

    ///Builder method that sets the value of `full_name`. Useful for initializing the message.
    #[inline]
    pub fn init_full_name(self, value: String) -> (r: Self)
        ensures
            r._has@ == self._has@.update(1, true),
            r == (Declaration { full_name: value, _has: r._has, ..self }),
    {
        let mut s = self;
        s.set_full_name(value);
        s
    }

    ///Return a reference to `type` as an `Option`
    #[inline]
    pub fn type_(&self) -> (r: Option<&String>)
        ensures
            r == (if self._has@[2] {
                Some(&self.type_)
            } else {
                None
            }),
    {
        if self._has.type_() {
            Some(&self.type_)
        } else {
            None
        }
    }

    ///Return a mutable reference to `type` as an `Option`
    #[inline]
    pub fn mut_type(&mut self) -> (r: Option<&mut String>)
        ensures
            old(self)._has@[2] ==> r is Some && *r->0 == old(self).type_ && final(self).type_
                == *final(r->0) && *final(self) == (Declaration { type_: final(self).type_, ..*old(self) }),
            !old(self)._has@[2] ==> r is None && *final(self) == *old(self),
    {
        if self._has.type_() {
            Some(&mut self.type_)
        } else {
            None
        }
    }

    ///Set the value and presence of `type`
    #[inline]
    pub fn set_type(&mut self, value: String) -> (r: &mut Self)
        ensures
            r._has@ == old(self)._has@.update(2, true),
            *r == (Declaration { type_: value, _has: r._has, ..*old(self) }),
            *final(self) == *final(r),
    {
        self._has.set_type();
        self.type_ = value;
        self
    }

    ///Clear the presence of `type`
    #[inline]
    pub fn clear_type(&mut self) -> (r: &mut Self)
        ensures
            r._has@ == old(self)._has@.update(2, false),
            *r == (Declaration { _has: r._has, ..*old(self) }),
            *final(self) == *final(r),
    {
        self._has.clear_type();
        self
    }

    ///Take the value of `type` and clear its presence
    #[inline]
    pub fn take_type(&mut self) -> (r: Option<String>)
        ensures
            r == (if old(self)._has@[2] {
                Some(old(self).type_)
            } else {
                None
            }),
            final(self)._has@ == old(self)._has@.update(2, false),
            old(self)._has@[2] ==> final(self).type_@ == Seq::<char>::empty(),
            !old(self)._has@[2] ==> final(self).type_ == old(self).type_,
            *final(self) == (Declaration { type_: final(self).type_, _has: final(self)._has, ..*old(self) }),
    {
        let val = if self._has.type_() {
            let mut v: String = String::new();
            std::mem::swap(&mut self.type_, &mut v);
            Some(v)
        } else {
            None
        };
        self._has.clear_type();
        val
    }

    ///Builder method that sets the value of `type`. Useful for initializing the message.
    #[inline]
    pub fn init_type(self, value: String) -> (r: Self)
        ensures
            r._has@ == self._has@.update(2, true),
            r == (Declaration { type_: value, _has: r._has, ..self }),
    {
        let mut s = self;
        s.set_type(value);
        s
    }

    ///Return a reference to `reserved` as an `Option`
    #[inline]
    pub fn reserved(&self) -> (r: Option<&bool>)
        ensures
            r == (if self._has@[3] {
                Some(&self.reserved)
            } else {
                None
            }),
    {
        if self._has.reserved() {
            Some(&self.reserved)
        } else {
            None
        }
    }

    ///Return a mutable reference to `reserved` as an `Option`
    #[inline]
    pub fn mut_reserved(&mut self) -> (r: Option<&mut bool>)
        ensures
            old(self)._has@[3] ==> r is Some && *r->0 == old(self).reserved && final(self).reserved
                == *final(r->0) && *final(self) == (Declaration { reserved: final(self).reserved, ..*old(self) }),
            !old(self)._has@[3] ==> r is None && *final(self) == *old(self),
    {
        if self._has.reserved() {
            Some(&mut self.reserved)
        } else {
            None
        }
    }

    ///Set the value and presence of `reserved`
    #[inline]
    pub fn set_reserved(&mut self, value: bool) -> (r: &mut Self)
        ensures
            r._has@ == old(self)._has@.update(3, true),
            *r == (Declaration { reserved: value, _has: r._has, ..*old(self) }),
            *final(self) == *final(r),
    {
        self._has.set_reserved();
        self.reserved = value;
        self
    }

    ///Clear the presence of `reserved`
    #[inline]
    pub fn clear_reserved(&mut self) -> (r: &mut Self)
        ensures
            r._has@ == old(self)._has@.update(3, false),
            *r == (Declaration { _has: r._has, ..*old(self) }),
            *final(self) == *final(r),
    {
        self._has.clear_reserved();
        self
    }

    ///Take the value of `reserved` and clear its presence
    #[inline]
    pub fn take_reserved(&mut self) -> (r: Option<bool>)
        ensures
            r == (if old(self)._has@[3] {
                Some(old(self).reserved)
            } else {
                None
            }),
            final(self)._has@ == old(self)._has@.update(3, false),
            old(self)._has@[3] ==> !final(self).reserved,
            !old(self)._has@[3] ==> final(self).reserved == old(self).reserved,
            *final(self) == (Declaration { reserved: final(self).reserved, _has: final(self)._has, ..*old(self) }),
    {
        let val = if self._has.reserved() {
            let mut v: bool = false;
            std::mem::swap(&mut self.reserved, &mut v);
            Some(v)
        } else {
            None
        };
        self._has.clear_reserved();
        val
    }

    ///Builder method that sets the value of `reserved`. Useful for initializing the message.
    #[inline]
    pub fn init_reserved(self, value: bool) -> (r: Self)
        ensures
            r._has@ == self._has@.update(3, true),
            r == (Declaration { reserved: value, _has: r._has, ..self }),
    {
        let mut s = self;
        s.set_reserved(value);
        s
    }

    ///Return a reference to `repeated` as an `Option`
    #[inline]
    pub fn repeated(&self) -> (r: Option<&bool>)
        ensures
            r == (if self._has@[4] {
                Some(&self.repeated)
            } else {
                None
            }),
    {
        if self._has.repeated() {
            Some(&self.repeated)
        } else {
            None
        }
    }

    ///Return a mutable reference to `repeated` as an `Option`
    #[inline]
    pub fn mut_repeated(&mut self) -> (r: Option<&mut bool>)
        ensures
            old(self)._has@[4] ==> r is Some && *r->0 == old(self).repeated && final(self).repeated
                == *final(r->0) && *final(self) == (Declaration { repeated: final(self).repeated, ..*old(self) }),
            !old(self)._has@[4] ==> r is None && *final(self) == *old(self),
    {
        if self._has.repeated() {
            Some(&mut self.repeated)
        } else {
            None
        }
    }

    ///Set the value and presence of `repeated`
    #[inline]
    pub fn set_repeated(&mut self, value: bool) -> (r: &mut Self)
        ensures
            r._has@ == old(self)._has@.update(4, true),
            *r == (Declaration { repeated: value, _has: r._has, ..*old(self) }),
            *final(self) == *final(r),
    {
        self._has.set_repeated();
        self.repeated = value;
        self
    }

    ///Clear the presence of `repeated`
    #[inline]
    pub fn clear_repeated(&mut self) -> (r: &mut Self)
        ensures
            r._has@ == old(self)._has@.update(4, false),
            *r == (Declaration { _has: r._has, ..*old(self) }),
            *final(self) == *final(r),
    {
        self._has.clear_repeated();
        self
    }

    ///Take the value of `repeated` and clear its presence
    #[inline]
    pub fn take_repeated(&mut self) -> (r: Option<bool>)
        ensures
            r == (if old(self)._has@[4] {
                Some(old(self).repeated)
            } else {
                None
            }),
            final(self)._has@ == old(self)._has@.update(4, false),
            old(self)._has@[4] ==> !final(self).repeated,
            !old(self)._has@[4] ==> final(self).repeated == old(self).repeated,
            *final(self) == (Declaration { repeated: final(self).repeated, _has: final(self)._has, ..*old(self) }),
    {
        let val = if self._has.repeated() {
            let mut v: bool = false;
            std::mem::swap(&mut self.repeated, &mut v);
            Some(v)
        } else {
            None
        };
        self._has.clear_repeated();
        val
    }

    ///Builder method that sets the value of `repeated`. Useful for initializing the message.
    #[inline]
    pub fn init_repeated(self, value: bool) -> (r: Self)
        ensures
            r._has@ == self._has@.update(4, true),
            r == (Declaration { repeated: value, _has: r._has, ..self }),
    {
        let mut s = self;
        s.set_repeated(value);
        s
    }

    /// Merges the value of the field numbered `num`, with wire type `wt`, that starts at
    /// `pos` in `buf` into the message, and gives the position just past the value.
    pub fn merge_field(&mut self, num: u32, wt: u32, buf: &[u8], pos: usize) -> (r: Result<usize, DecodeError>)
        requires
            pos <= buf.len(),
        ensures
            match old(self)@.merge_field(num, wt, buf@.subrange(pos as int, buf.len() as int)) {
                Ok((m, k)) => r matches Ok(next) && next == pos + k && final(self)@ == m,
                Err(e) => r == Err::<usize, DecodeError>(e),
            },
            r matches Ok(next) ==> next <= buf.len(),
            r is Err ==> final(self)@ == old(self)@,
    {
        proof {
            reveal(DeclarationModel::merge_field);
        }
        match num {
            1 => self.merge_number_field(wt, buf, pos),
            2 => self.merge_full_name_field(wt, buf, pos),
            3 => self.merge_type_field(wt, buf, pos),
            5 => self.merge_reserved_field(wt, buf, pos),
            6 => self.merge_repeated_field(wt, buf, pos),
            _ => skip_value(buf, pos, buf.len(), wt),
        }
    }

    /// Merges the value of a field numbered 1, starting at `pos` in `buf`, into `number`.
    fn merge_number_field(&mut self, wt: u32, buf: &[u8], pos: usize) -> (r: Result<usize, DecodeError>)
        requires
            pos <= buf.len(),
        ensures
            match old(self)@.merge_field(1, wt, buf@.subrange(pos as int, buf.len() as int)) {
                Ok((m, k)) => r matches Ok(next) && next == pos + k && final(self)@ == m,
                Err(e) => r == Err::<usize, DecodeError>(e),
            },
            r matches Ok(next) ==> next <= buf.len(),
            r is Err ==> final(self)@ == old(self)@,
    {
        proof {
            reveal(DeclarationModel::merge_field);
        }
        let ghost m0 = self@;
        let end = buf.len();
        match read_varint(buf, pos, end) {
            Ok((v, next)) => {
                self.number = to_i32(v);
                self._has.set_number();
                proof {
                    assert(self@ =~= (DeclarationModel { number: varint_as_i32(v), _has: m0._has.update(0, true), ..m0 }));
                }
                Ok(next)
            },
            Err(e) => Err(e),
        }
    }

    /// Merges the value of a field numbered 2, starting at `pos` in `buf`, into `full_name`.
    fn merge_full_name_field(&mut self, wt: u32, buf: &[u8], pos: usize) -> (r: Result<usize, DecodeError>)
        requires
            pos <= buf.len(),
        ensures
            match old(self)@.merge_field(2, wt, buf@.subrange(pos as int, buf.len() as int)) {
                Ok((m, k)) => r matches Ok(next) && next == pos + k && final(self)@ == m,
                Err(e) => r == Err::<usize, DecodeError>(e),
            },
            r matches Ok(next) ==> next <= buf.len(),
            r is Err ==> final(self)@ == old(self)@,
    {
        proof {
            reveal(DeclarationModel::merge_field);
        }
        let ghost m0 = self@;
        let end = buf.len();
        match read_len(buf, pos, end) {
            Ok((a, b)) => match read_string(buf, a, b) {
                Ok(st) => {
                    let ghost t = st@;
                    self.full_name = st;
                    self._has.set_full_name();
                    proof {
                        assert(self@ =~= (DeclarationModel { full_name: t, _has: m0._has.update(1, true), ..m0 }));
                    }
                    Ok(b)
                },
                Err(e) => Err(e),
            },
            Err(e) => Err(e),
        }
    }

    /// Merges the value of a field numbered 3, starting at `pos` in `buf`, into `type`.
    fn merge_type_field(&mut self, wt: u32, buf: &[u8], pos: usize) -> (r: Result<usize, DecodeError>)
        requires
            pos <= buf.len(),
        ensures
            match old(self)@.merge_field(3, wt, buf@.subrange(pos as int, buf.len() as int)) {
                Ok((m, k)) => r matches Ok(next) && next == pos + k && final(self)@ == m,
                Err(e) => r == Err::<usize, DecodeError>(e),
            },
            r matches Ok(next) ==> next <= buf.len(),
            r is Err ==> final(self)@ == old(self)@,
    {
        proof {
            reveal(DeclarationModel::merge_field);
        }
        let ghost m0 = self@;
        let end = buf.len();
        match read_len(buf, pos, end) {
            Ok((a, b)) => match read_string(buf, a, b) {
                Ok(st) => {
                    let ghost t = st@;
                    self.type_ = st;
                    self._has.set_type();
                    proof {
                        assert(self@ =~= (DeclarationModel { type_: t, _has: m0._has.update(2, true), ..m0 }));
                    }
                    Ok(b)
                },
                Err(e) => Err(e),
            },
            Err(e) => Err(e),
        }
    }

    /// Merges the value of a field numbered 5, starting at `pos` in `buf`, into `reserved`.
    fn merge_reserved_field(&mut self, wt: u32, buf: &[u8], pos: usize) -> (r: Result<usize, DecodeError>)
        requires
            pos <= buf.len(),
        ensures
            match old(self)@.merge_field(5, wt, buf@.subrange(pos as int, buf.len() as int)) {
                Ok((m, k)) => r matches Ok(next) && next == pos + k && final(self)@ == m,
                Err(e) => r == Err::<usize, DecodeError>(e),
            },
            r matches Ok(next) ==> next <= buf.len(),
            r is Err ==> final(self)@ == old(self)@,
    {
        proof {
            reveal(DeclarationModel::merge_field);
        }
        let ghost m0 = self@;
        let end = buf.len();
        match read_varint(buf, pos, end) {
            Ok((v, next)) => {
                self.reserved = v != 0;
                self._has.set_reserved();
                proof {
                    assert(self@ =~= (DeclarationModel { reserved: v != 0, _has: m0._has.update(3, true), ..m0 }));
                }
                Ok(next)
            },
            Err(e) => Err(e),
        }
    }

    /// Merges the value of a field numbered 6, starting at `pos` in `buf`, into `repeated`.
    fn merge_repeated_field(&mut self, wt: u32, buf: &[u8], pos: usize) -> (r: Result<usize, DecodeError>)
        requires
            pos <= buf.len(),
        ensures
            match old(self)@.merge_field(6, wt, buf@.subrange(pos as int, buf.len() as int)) {
                Ok((m, k)) => r matches Ok(next) && next == pos + k && final(self)@ == m,
                Err(e) => r == Err::<usize, DecodeError>(e),
            },
            r matches Ok(next) ==> next <= buf.len(),
            r is Err ==> final(self)@ == old(self)@,
    {
        proof {
            reveal(DeclarationModel::merge_field);
        }
        let ghost m0 = self@;
        let end = buf.len();
        match read_varint(buf, pos, end) {
            Ok((v, next)) => {
                self.repeated = v != 0;
                self._has.set_repeated();
                proof {
                    assert(self@ =~= (DeclarationModel { repeated: v != 0, _has: m0._has.update(4, true), ..m0 }));
                }
                Ok(next)
            },
            Err(e) => Err(e),
        }
    }

    /// Reads fields from `buf`, from `start` on, into the message while fewer than `len`
    /// bytes have been read, and gives the position just past the last field read.
    #[verifier::rlimit(40)]
    pub fn decode(&mut self, buf: &[u8], start: usize, len: u64) -> (r: Result<usize, DecodeError>)
        requires
            start <= buf.len(),
        ensures
            match old(self)@.decode_stream(buf@.subrange(start as int, buf.len() as int), len as int) {
                Ok((m, c)) => r matches Ok(next) && next == start + c && final(self)@ == m,
                Err(e) => r == Err::<usize, DecodeError>(e),
            },
            r matches Ok(next) ==> next <= buf.len(),
            r is Err ==> final(self)@ == old(self)@.until_error_stream(
                buf@.subrange(start as int, buf.len() as int),
                len as int,
            ),
    {
        let mut pos = start;
        while ((pos - start) as u64) < len
            invariant
                start <= pos <= buf.len(),
                old(self)@.decode_stream(buf@.subrange(start as int, buf.len() as int), len as int)
                    == shift_consumed(
                    self@.decode_stream(buf@.subrange(pos as int, buf.len() as int), len - (pos - start)),
                    (pos - start) as nat,
                ),
                old(self)@.until_error_stream(buf@.subrange(start as int, buf.len() as int), len as int)
                    == self@.until_error_stream(buf@.subrange(pos as int, buf.len() as int), len - (pos - start)),
            decreases buf.len() - pos,
        {
            let ghost s = buf@.subrange(pos as int, buf.len() as int);
            let (num, wt, p) = match read_tag(buf, pos, buf.len()) {
                Ok(x) => x,
                Err(e) => return Err(e),
            };
            if num == 0 {
                return Err(DecodeError::ZeroField);
            }
            proof {
                lemma_tag_bounds(s);
                assert(s.subrange((p - pos) as int, s.len() as int) =~= buf@.subrange(p as int, buf.len() as int));
            }
            let next = match self.merge_field(num, wt, buf, p) {
                Ok(x) => x,
                Err(e) => return Err(e),
            };
            proof {
                let rest = buf@.subrange(p as int, buf.len() as int);
                assert(rest.subrange((next - p) as int, rest.len() as int) =~= buf@.subrange(
                    next as int,
                    buf.len() as int,
                ));
            }
            pos = next;
        }
        Ok(pos)
    }

    /// Merges the fields encoded in `bytes` into the message.
    pub fn decode_from_bytes(&mut self, bytes: &[u8]) -> (r: Result<(), DecodeError>)
        ensures
            match old(self)@.merge_from(bytes@) {
                Ok(m) => r is Ok && final(self)@ == m,
                Err(e) => r == Err::<(), DecodeError>(e),
            },
            r is Err ==> final(self)@ == old(self)@.merge_until_error(bytes@),
    {
        assert(bytes@.subrange(0, bytes@.len() as int) =~= bytes@);
        match self.decode(bytes, 0, bytes.len() as u64) {
            Ok(_) => Ok(()),
            Err(e) => Err(e),
        }
    }
}

} // verus!
