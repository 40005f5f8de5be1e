//! `Location`, with its nested types and its presence bits.
use vstd::prelude::*;
use vstd::utf8::{decode_utf8, valid_utf8};
use crate::bits::{flags_of, lemma_flags_clear, lemma_flags_get, lemma_flags_set, lemma_flags_zero};
use crate::descriptor::google_::protobuf_ as pb;
use crate::wire::{
    copy_bytes, lemma_len_bounds, lemma_varint_bounds, lemma_tag_bounds, lemma_values_prefix, parse_fixed64, parse_len, parse_packed_i32,
    parse_string, parse_tag, parse_varint, read_fixed64, read_len, read_packed_i32, read_string,
    read_tag, read_varint, shift_consumed, skip_len, skip_value, to_i32, to_i64, varint_as_i32,
    varint_as_i64, DecodeError, WIRE_TYPE_LEN,
};


verus! {

/// Presence bits of the optional fields of `Location`: bit `i % 8` of byte `i / 8` is flag `i`.
#[derive(Debug, PartialEq)]
pub struct _Hazzer(pub [u8; 1]);

impl View for _Hazzer {
    type V = Seq<bool>;

    open spec fn view(&self) -> Seq<bool> {
        flags_of(self.0@)
    }
}

impl Default for _Hazzer {
    fn default() -> (r: Self)
        ensures
            r@ == Seq::new(8, |i: int| false),
    {
        let r = _Hazzer([0u8]);
        proof {
            lemma_flags_zero(r.0@);
            assert(r@ =~= Seq::new(8, |i: int| false));
        }
        r
    }
}

impl Clone for _Hazzer {
    fn clone(&self) -> (r: Self)
        ensures
            r == *self,
    {
        _Hazzer(self.0)
    }
}

impl _Hazzer {
    ///Query presence of `leading_comments`
    #[inline]
    pub fn leading_comments(&self) -> (r: bool)
        ensures
            r == self@[0],
    {
        proof {
            lemma_flags_get(self.0@, 0, 0);
        }
        (self.0[0] & (1u8 << 0u8)) != 0
    }

    ///Set presence of `leading_comments`
    #[inline]
    pub fn set_leading_comments(&mut self) -> (r: &mut Self)
        ensures
            r@ == old(self)@.update(0, true),
            *final(self) == *final(r),
    {
        let ghost bytes = self.0@;
        self.0[0] = self.0[0] | (1u8 << 0u8);
        proof {
            lemma_flags_set(bytes, self.0@, 0, 0);
        }
        self
    }

    ///Clear presence of `leading_comments`
    #[inline]
    pub fn clear_leading_comments(&mut self) -> (r: &mut Self)
        ensures
            r@ == old(self)@.update(0, false),
            *final(self) == *final(r),
    {
        let ghost bytes = self.0@;
        self.0[0] = self.0[0] & !(1u8 << 0u8);
        proof {
            lemma_flags_clear(bytes, self.0@, 0, 0);
        }
        self
    }

    ///Builder method that sets the presence of `leading_comments`. Useful for initializing the Hazzer.
    #[inline]
    pub fn init_leading_comments(self) -> (r: Self)
        ensures
            r@ == self@.update(0, true),
    {
        let mut s = self;
        s.set_leading_comments();
        s
    }

    ///Query presence of `trailing_comments`
    #[inline]
    pub fn trailing_comments(&self) -> (r: bool)
        ensures
            r == self@[1],
    {
        proof {
            lemma_flags_get(self.0@, 0, 1);
        }
        (self.0[0] & (1u8 << 1u8)) != 0
    }

    ///Set presence of `trailing_comments`
    #[inline]
    pub fn set_trailing_comments(&mut self) -> (r: &mut Self)
        ensures
            r@ == old(self)@.update(1, true),
            *final(self) == *final(r),
    {
        let ghost bytes = self.0@;
        self.0[0] = self.0[0] | (1u8 << 1u8);
        proof {
            lemma_flags_set(bytes, self.0@, 0, 1);
        }
        self
    }

    ///Clear presence of `trailing_comments`
    #[inline]
    pub fn clear_trailing_comments(&mut self) -> (r: &mut Self)
        ensures
            r@ == old(self)@.update(1, false),
            *final(self) == *final(r),
    {
        let ghost bytes = self.0@;
        self.0[0] = self.0[0] & !(1u8 << 1u8);
        proof {
            lemma_flags_clear(bytes, self.0@, 0, 1);
        }
        self
    }

    ///Builder method that sets the presence of `trailing_comments`. Useful for initializing the Hazzer.
    #[inline]
    pub fn init_trailing_comments(self) -> (r: Self)
        ensures
            r@ == self@.update(1, true),
    {
        let mut s = self;
        s.set_trailing_comments();
        s
    }
}

/// The Protobuf message `google.protobuf.SourceCodeInfo.Location`.
#[derive(Debug)]
pub struct Location {
    pub path: Vec<i32>,
    pub span: Vec<i32>,
    pub leading_comments: String,
    pub trailing_comments: String,
    pub leading_detached_comments: Vec<String>,
    pub _has: _Hazzer,
}

/// The value of a `Location` as the contracts see it.
#[verifier::ext_equal]
pub ghost struct LocationModel {
    pub path: Seq<i32>,
    pub span: Seq<i32>,
    pub leading_comments: Seq<char>,
    pub trailing_comments: Seq<char>,
    pub leading_detached_comments: Seq<Seq<char>>,
    pub _has: Seq<bool>,
}

impl View for Location {
    type V = LocationModel;

    open spec fn view(&self) -> LocationModel {
        LocationModel {
            path: self.path@,
            span: self.span@,
            leading_comments: self.leading_comments@,
            trailing_comments: self.trailing_comments@,
            leading_detached_comments: self.leading_detached_comments@.map_values(|s: String| s@),
            _has: self._has@,
        }
    }
}

impl LocationModel {
    /// The value of a `Location` with no field set.
    pub open spec fn empty() -> LocationModel {
        LocationModel {
            path: Seq::empty(),
            span: Seq::empty(),
            leading_comments: Seq::empty(),
            trailing_comments: Seq::empty(),
            leading_detached_comments: Seq::empty(),
            _has: Seq::new(8, |i: int| false),
        }
    }

    /// The message after the value of the field numbered `num`, with wire type `wt`, at the
    /// start of `s` has been merged into it, and the length of that value. A known field is
    /// read as its own type: a later value of a singular field replaces the earlier one, and
    /// a repeated field gains the values at its end. An unknown field is skipped by its wire
    /// type and leaves the message as it was.
    #[verifier::opaque]
    pub open spec fn merge_field(self, num: u32, wt: u32, s: Seq<u8>) -> Result<(LocationModel, nat), DecodeError>
    {
        if num == 1 {
            if wt == WIRE_TYPE_LEN {
                match parse_len(s) {
                    Ok((p, n)) => match parse_packed_i32(p) {
                        Ok(vs) => Ok(((LocationModel { path: self.path + vs, ..self }), n)),
                        Err(e) => Err(e),
                    },
                    Err(e) => Err(e),
                }
            } else {
                match parse_varint(s) {
                    Ok((v, n)) => Ok(((LocationModel { path: self.path.push(varint_as_i32(v)), ..self }), n)),
                    Err(e) => Err(e),
                }
            }
        } else if num == 2 {
            if wt == WIRE_TYPE_LEN {
                match parse_len(s) {
                    Ok((p, n)) => match parse_packed_i32(p) {
                        Ok(vs) => Ok(((LocationModel { span: self.span + vs, ..self }), n)),
                        Err(e) => Err(e),
                    },
                    Err(e) => Err(e),
                }
            } else {
                match parse_varint(s) {
                    Ok((v, n)) => Ok(((LocationModel { span: self.span.push(varint_as_i32(v)), ..self }), n)),
                    Err(e) => Err(e),
                }
            }
        } else if num == 3 {
            match parse_len(s) {
                Ok((p, n)) => match parse_string(p) {
                    Ok(t) => Ok(((LocationModel { leading_comments: t, _has: self._has.update(0, true), ..self }), n)),
                    Err(e) => Err(e),
                },
                Err(e) => Err(e),
            }
        } else if num == 4 {
            match parse_len(s) {
                Ok((p, n)) => match parse_string(p) {
                    Ok(t) => Ok(((LocationModel { trailing_comments: t, _has: self._has.update(1, true), ..self }), n)),
                    Err(e) => Err(e),
                },
                Err(e) => Err(e),
            }
        } else if num == 6 {
            match parse_len(s) {
                Ok((p, n)) => match parse_string(p) {
                    Ok(t) => Ok(((LocationModel { leading_detached_comments: self.leading_detached_comments.push(t), ..self }), n)),
                    Err(e) => Err(e),
                },
                Err(e) => Err(e),
            }
        } else {
            match skip_len(s, wt) {
                Ok(n) => Ok((self, n)),
                Err(e) => Err(e),
            }
        }
    }

    /// The message after its fields have been read from the start of `s` while fewer than
    /// `rem` bytes have been read, and how many bytes were read. Each field is read whole,
    /// so the last one may run past `rem`. A field numbered 0 is refused.
    pub open spec fn decode_stream(self, s: Seq<u8>, rem: int) -> Result<(LocationModel, nat), DecodeError>
        decreases s.len(),
    {
        if rem <= 0 {
            Ok((self, 0))
        } else {
            match parse_tag(s) {
                Err(e) => Err(e),
                Ok((num, wt, n)) => if num == 0 {
                    Err(DecodeError::ZeroField)
                } else if 0 < n <= s.len() {
                    let rest = s.subrange(n as int, s.len() as int);
                    match self.merge_field(num, wt, rest) {
                        Ok((m, k)) => if k <= rest.len() {
                            shift_consumed(
                                m.decode_stream(rest.subrange(k as int, rest.len() as int), rem - (n + k)),
                                n + k,
                            )
                        } else {
                            Err(DecodeError::UnexpectedEof)
                        },
                        Err(e) => Err(e),
                    }
                } else {
                    Err(DecodeError::UnexpectedEof)
                },
            }
        }
    }

    /// The message after every field in `s` has been merged into it, in order: its fields
    /// read from `s` while fewer than `s.len()` bytes have been read.
    pub open spec fn merge_from(self, s: Seq<u8>) -> Result<LocationModel, DecodeError> {
        match self.decode_stream(s, s.len() as int) {
            Ok((m, c)) => Ok(m),
            Err(e) => Err(e),
        }
    }

    /// The message after its fields have been read from the start of `s`, as in
    /// `decode_stream`, up to the first one that fails: that one leaves the message as its
    /// failed merge does, and no field after it is read.
    pub open spec fn until_error_stream(self, s: Seq<u8>, rem: int) -> LocationModel
        decreases s.len(),
    {
        if rem <= 0 {
            self
        } else {
            match parse_tag(s) {
                Err(e) => self,
                Ok((num, wt, n)) => if num == 0 {
                    self
                } else if 0 < n <= s.len() {
                    let rest = s.subrange(n as int, s.len() as int);
                    match self.merge_field(num, wt, rest) {
                        Ok((m, k)) => if k <= rest.len() {
                            m.until_error_stream(rest.subrange(k as int, rest.len() as int), rem - (n + k))
                        } else {
                            m
                        },
                        Err(e) => self,
                    }
                } else {
                    self
                },
            }
        }
    }

    /// The message after the fields of `s` have been merged into it in order, up to the
    /// first one that fails, which leaves the message as its failed merge does. When none
    /// fails, this is what `merge_from` gives.
    pub open spec fn merge_until_error(self, s: Seq<u8>) -> LocationModel {
        self.until_error_stream(s, s.len() as int)
    }

    /// Reading fields reads at most the whole input, and at least `rem` bytes when `rem` is
    /// positive.
    pub proof fn lemma_stream_bounds(self, s: Seq<u8>, rem: int)
        ensures
            self.decode_stream(s, rem) matches Ok((m, c)) ==> c <= s.len() && (rem > 0 ==> c >= rem) && (
            rem <= 0 ==> c == 0),
        decreases s.len(),
    {
        if rem > 0 {
            if let Ok((num, wt, n)) = parse_tag(s) {
                if num != 0 && 0 < n <= s.len() {
                    let rest = s.subrange(n as int, s.len() as int);
                    if let Ok((m, k)) = self.merge_field(num, wt, rest) {
                        if k <= rest.len() {
                            m.lemma_stream_bounds(rest.subrange(k as int, rest.len() as int), rem - (n + k));
                        }
                    }
                }
            }
        }
    }

    /// Fields that can be read from `s` read the same from `s` followed by anything.
    pub proof fn lemma_stream_prefix(self, s: Seq<u8>, b: Seq<u8>, rem: int)
        requires
            self.decode_stream(s, rem) is Ok,
        ensures
            self.decode_stream(s + b, rem) == self.decode_stream(s, rem),
        decreases s.len(),
    {
        if rem > 0 {
            lemma_values_prefix(s, b);
            let (num, wt, n) = parse_tag(s)->Ok_0;
            let rest = s.subrange(n as int, s.len() as int);
            assert((s + b).subrange(n as int, (s + b).len() as int) =~= rest + b);
            self.lemma_merge_field_prefix(num, wt, rest, b);
            let (m, k) = self.merge_field(num, wt, rest)->Ok_0;
            let t = rest.subrange(k as int, rest.len() as int);
            assert((rest + b).subrange(k as int, (rest + b).len() as int) =~= t + b);
            m.lemma_stream_prefix(t, b, rem - (n + k));
        }
    }

    proof fn lemma_merge_field_prefix(self, num: u32, wt: u32, s: Seq<u8>, b: Seq<u8>)
        requires
            self.merge_field(num, wt, s) is Ok,
        ensures
            self.merge_field(num, wt, s + b) == self.merge_field(num, wt, s),
        
    {
        reveal(LocationModel::merge_field);
        lemma_values_prefix(s, b);
        lemma_len_bounds(s);

    }

    /// Reading exactly `r1` bytes of fields, then `r2` more, is reading while fewer than
    /// `r1 + r2` bytes have been read.
    proof fn lemma_stream_split(self, s: Seq<u8>, r1: int, r2: int)
        requires
            r1 >= 0,
            r2 >= 0,
            self.decode_stream(s, r1) matches Ok((m, c)) && c == r1,
        ensures
            self.decode_stream(s, r1 + r2) == shift_consumed(
                self.decode_stream(s, r1)->Ok_0.0.decode_stream(s.subrange(r1, s.len() as int), r2),
                r1 as nat,
            ),
        decreases s.len(),
    {
        if r1 > 0 {
            let (num, wt, n) = parse_tag(s)->Ok_0;
            let rest = s.subrange(n as int, s.len() as int);
            let (m, k) = self.merge_field(num, wt, rest)->Ok_0;
            let t = rest.subrange(k as int, rest.len() as int);
            m.lemma_stream_bounds(t, r1 - (n + k));
            assert(t.subrange(r1 - (n + k), t.len() as int) =~= s.subrange(r1, s.len() as int));
            m.lemma_stream_split(t, r1 - (n + k), r2);
        } else {
            assert(s.subrange(0, s.len() as int) =~= s);
        }
    }

    /// Decoding is merging: when the fields of `a` merge into the message without error,
    /// merging `a` followed by `b` gives what merging `b` into that result gives.
    pub proof fn lemma_merge_from_concat(self, a: Seq<u8>, b: Seq<u8>)
        requires
            self.merge_from(a) is Ok,
        ensures
            self.merge_from(a + b) == self.merge_from(a)->Ok_0.merge_from(b),
    {
        self.lemma_stream_bounds(a, a.len() as int);
        self.lemma_stream_prefix(a, b, a.len() as int);
        assert((a + b).len() == a.len() + b.len());
        self.lemma_stream_split(a + b, a.len() as int, b.len() as int);
        assert((a + b).subrange(a.len() as int, (a + b).len() as int) =~= b);
    }

    proof fn lemma_single_field(self, s: Seq<u8>, num: u32, wt: u32, n: nat)
        requires
            parse_tag(s) == Ok::<(u32, u32, nat), DecodeError>((num, wt, n)),
            num != 0,
            self.merge_field(num, wt, s.subrange(n as int, s.len() as int)) matches Ok((m, k)) && n + k == s.len(),
        ensures
            self.merge_from(s) == Ok::<LocationModel, DecodeError>(self.merge_field(num, wt, s.subrange(n as int, s.len() as int))->Ok_0.0),
    {
        lemma_tag_bounds(s);
        let rest = s.subrange(n as int, s.len() as int);
        let (m, k) = self.merge_field(num, wt, rest)->Ok_0;
        assert(rest.subrange(k as int, rest.len() as int) =~= Seq::<u8>::empty());
        assert(m.decode_stream(rest.subrange(k as int, rest.len() as int), s.len() - (n + k)) == Ok::<
            (LocationModel, nat),
            DecodeError,
        >((m, 0)));
    }

    /// A length-delimited field numbered 1 holds packed values of `path`: decoding a buffer that
    /// holds just such a field appends them, in order, to `path`,
    /// and leaves every other field as it was.
    pub proof fn lemma_decode_path_packed(self, s: Seq<u8>, wt: u32, n: nat, p: Seq<u8>, k: nat, vs: Seq<i32>)
        requires
            parse_tag(s) == Ok::<(u32, u32, nat), DecodeError>((1, wt, n)),
            wt == WIRE_TYPE_LEN,
            parse_len(s.subrange(n as int, s.len() as int)) == Ok::<(Seq<u8>, nat), DecodeError>((p, k)),
            parse_packed_i32(p) == Ok::<Seq<i32>, DecodeError>(vs),
            n + k == s.len(),
        ensures
            self.merge_from(s) == Ok::<LocationModel, DecodeError>((LocationModel { path: self.path + vs, ..self })),
    {
        reveal(LocationModel::merge_field);
        self.lemma_single_field(s, 1, wt, n);
    }

    /// Any other field numbered 1 holds one value of `path`: decoding a buffer that holds
    /// just such a field appends the low 32 bits of its varint to `path`,
    /// and leaves every other field as it was.
    pub proof fn lemma_decode_path(self, s: Seq<u8>, wt: u32, n: nat, v: u64, k: nat)
        requires
            parse_tag(s) == Ok::<(u32, u32, nat), DecodeError>((1, wt, n)),
            wt != WIRE_TYPE_LEN,
            parse_varint(s.subrange(n as int, s.len() as int)) == Ok::<(u64, nat), DecodeError>((v, k)),
            n + k == s.len(),
        ensures
            self.merge_from(s) == Ok::<LocationModel, DecodeError>((LocationModel { path: self.path.push(varint_as_i32(v)), ..self })),
    {
        reveal(LocationModel::merge_field);
        self.lemma_single_field(s, 1, wt, n);
    }

    /// A length-delimited field numbered 2 holds packed values of `span`: decoding a buffer that
    /// holds just such a field appends them, in order, to `span`,
    /// and leaves every other field as it was.
    pub proof fn lemma_decode_span_packed(self, s: Seq<u8>, wt: u32, n: nat, p: Seq<u8>, k: nat, vs: Seq<i32>)
        requires
            parse_tag(s) == Ok::<(u32, u32, nat), DecodeError>((2, wt, n)),
            wt == WIRE_TYPE_LEN,
            parse_len(s.subrange(n as int, s.len() as int)) == Ok::<(Seq<u8>, nat), DecodeError>((p, k)),
            parse_packed_i32(p) == Ok::<Seq<i32>, DecodeError>(vs),
            n + k == s.len(),
        ensures
            self.merge_from(s) == Ok::<LocationModel, DecodeError>((LocationModel { span: self.span + vs, ..self })),
    {
        reveal(LocationModel::merge_field);
        self.lemma_single_field(s, 2, wt, n);
    }

    /// Any other field numbered 2 holds one value of `span`: decoding a buffer that holds
    /// just such a field appends the low 32 bits of its varint to `span`,
    /// and leaves every other field as it was.
    pub proof fn lemma_decode_span(self, s: Seq<u8>, wt: u32, n: nat, v: u64, k: nat)
        requires
            parse_tag(s) == Ok::<(u32, u32, nat), DecodeError>((2, wt, n)),
            wt != WIRE_TYPE_LEN,
            parse_varint(s.subrange(n as int, s.len() as int)) == Ok::<(u64, nat), DecodeError>((v, k)),
            n + k == s.len(),
        ensures
            self.merge_from(s) == Ok::<LocationModel, DecodeError>((LocationModel { span: self.span.push(varint_as_i32(v)), ..self })),
    {
        reveal(LocationModel::merge_field);
        self.lemma_single_field(s, 2, wt, n);
    }

    /// A field numbered 3 holds `leading_comments`: decoding a buffer that holds just such a field,
    /// whatever its wire type, sets `leading_comments` to the text of its payload, marks it present,
    /// and leaves every other field as it was.
    pub proof fn lemma_decode_leading_comments(self, s: Seq<u8>, wt: u32, n: nat, p: Seq<u8>, k: nat)
        requires
            parse_tag(s) == Ok::<(u32, u32, nat), DecodeError>((3, wt, n)),
            parse_len(s.subrange(n as int, s.len() as int)) == Ok::<(Seq<u8>, nat), DecodeError>((p, k)),
            n + k == s.len(),
            valid_utf8(p),
        ensures
            self.merge_from(s) == Ok::<LocationModel, DecodeError>((LocationModel { leading_comments: decode_utf8(p), _has: self._has.update(0, true), ..self })),
    {
        reveal(LocationModel::merge_field);
        self.lemma_single_field(s, 3, wt, n);
    }

    /// A field numbered 4 holds `trailing_comments`: decoding a buffer that holds just such a field,
    /// whatever its wire type, sets `trailing_comments` to the text of its payload, marks it present,
    /// and leaves every other field as it was.
    pub proof fn lemma_decode_trailing_comments(self, s: Seq<u8>, wt: u32, n: nat, p: Seq<u8>, k: nat)
        requires
            parse_tag(s) == Ok::<(u32, u32, nat), DecodeError>((4, wt, n)),
            parse_len(s.subrange(n as int, s.len() as int)) == Ok::<(Seq<u8>, nat), DecodeError>((p, k)),
            n + k == s.len(),
            valid_utf8(p),
        ensures
            self.merge_from(s) == Ok::<LocationModel, DecodeError>((LocationModel { trailing_comments: decode_utf8(p), _has: self._has.update(1, true), ..self })),
    {
        reveal(LocationModel::merge_field);
        self.lemma_single_field(s, 4, wt, n);
    }

    /// A field numbered 6 holds `leading_detached_comments`: decoding a buffer that holds just such a field,
    /// whatever its wire type, appends the text of its payload to `leading_detached_comments`,
    /// and leaves every other field as it was.
    pub proof fn lemma_decode_leading_detached_comments(self, s: Seq<u8>, wt: u32, n: nat, p: Seq<u8>, k: nat)
        requires
            parse_tag(s) == Ok::<(u32, u32, nat), DecodeError>((6, wt, n)),
            parse_len(s.subrange(n as int, s.len() as int)) == Ok::<(Seq<u8>, nat), DecodeError>((p, k)),
            n + k == s.len(),
            valid_utf8(p),
        ensures
            self.merge_from(s) == Ok::<LocationModel, DecodeError>((LocationModel { leading_detached_comments: self.leading_detached_comments.push(decode_utf8(p)), ..self })),
    {
        reveal(LocationModel::merge_field);
        self.lemma_single_field(s, 6, wt, n);
    }

    /// A field whose number this message does not define is skipped by its wire type:
    /// decoding a buffer that holds just such a field leaves the message as it was.
    pub proof fn lemma_decode_unknown(self, s: Seq<u8>, num: u32, wt: u32, n: nat, k: nat)
        requires
            parse_tag(s) == Ok::<(u32, u32, nat), DecodeError>((num, wt, n)),
            num != 0,
            num != 1 && num != 2 && num != 3 && num != 4 && num != 6,
            skip_len(s.subrange(n as int, s.len() as int), wt) == Ok::<nat, DecodeError>(k),
            n + k == s.len(),
        ensures
            self.merge_from(s) == Ok::<LocationModel, DecodeError>(self),
    {
        reveal(LocationModel::merge_field);
        self.lemma_single_field(s, num, wt, n);
    }
}

impl Default for Location {
    fn default() -> (r: Self)
        ensures
            r@ == LocationModel::empty(),
    {
        let r = Location {
            path: Vec::new(),
            span: Vec::new(),
            leading_comments: String::new(),
            trailing_comments: String::new(),
            leading_detached_comments: Vec::new(),
            _has: _Hazzer::default(),
        };
        assert(r@ =~= LocationModel::empty());
        r
    }
}

impl Location {
    ///Return a reference to `leading_comments` as an `Option`
    #[inline]
    pub fn leading_comments(&self) -> (r: Option<&String>)
        ensures
            r == (if self._has@[0] {
                Some(&self.leading_comments)
            } else {
                None
            }),
    {
        if self._has.leading_comments() {
            Some(&self.leading_comments)
        } else {
            None
        }
    }

    ///Return a mutable reference to `leading_comments` as an `Option`
    #[inline]
    pub fn mut_leading_comments(&mut self) -> (r: Option<&mut String>)
        ensures
            old(self)._has@[0] ==> r is Some && *r->0 == old(self).leading_comments && final(self).leading_comments
                == *final(r->0) && *final(self) == (Location { leading_comments: final(self).leading_comments, ..*old(self) }),
            !old(self)._has@[0] ==> r is None && *final(self) == *old(self),
    {
        if self._has.leading_comments() {
            Some(&mut self.leading_comments)
        } else {
            None
        }
    }

    ///Set the value and presence of `leading_comments`
    #[inline]
    pub fn set_leading_comments(&mut self, value: String) -> (r: &mut Self)
        ensures
            r._has@ == old(self)._has@.update(0, true),
            *r == (Location { leading_comments: value, _has: r._has, ..*old(self) }),
            *final(self) == *final(r),
    {
        self._has.set_leading_comments();
        self.leading_comments = value;
        self
    }

    ///Clear the presence of `leading_comments`
    #[inline]
    pub fn clear_leading_comments(&mut self) -> (r: &mut Self)
        ensures
            r._has@ == old(self)._has@.update(0, false),
            *r == (Location { _has: r._has, ..*old(self) }),
            *final(self) == *final(r),
    {
        self._has.clear_leading_comments();
        self
    }

    ///Take the value of `leading_comments` and clear its presence
    #[inline]
    pub fn take_leading_comments(&mut self) -> (r: Option<String>)
        ensures
            r == (if old(self)._has@[0] {
                Some(old(self).leading_comments)
            } else {
                None
            }),
            final(self)._has@ == old(self)._has@.update(0, false),
            old(self)._has@[0] ==> final(self).leading_comments@ == Seq::<char>::empty(),
            !old(self)._has@[0] ==> final(self).leading_comments == old(self).leading_comments,
            *final(self) == (Location { leading_comments: final(self).leading_comments, _has: final(self)._has, ..*old(self) }),
    {
        let val = if self._has.leading_comments() {
            let mut v: String = String::new();
            std::mem::swap(&mut self.leading_comments, &mut v);
            Some(v)
        } else {
            None
        };
        self._has.clear_leading_comments();
        val
    }

    ///Builder method that sets the value of `leading_comments`. Useful for initializing the message.
    #[inline]
    pub fn init_leading_comments(self, value: String) -> (r: Self)
        ensures
            r._has@ == self._has@.update(0, true),
            r == (Location { leading_comments: value, _has: r._has, ..self }),
    {
        let mut s = self;
        s.set_leading_comments(value);
        s
    }

    ///Return a reference to `trailing_comments` as an `Option`
    #[inline]
    pub fn trailing_comments(&self) -> (r: Option<&String>)
        ensures
            r == (if self._has@[1] {
                Some(&self.trailing_comments)
            } else {
                None
            }),
    {
        if self._has.trailing_comments() {
            Some(&self.trailing_comments)
        } else {
            None
        }
    }

    ///Return a mutable reference to `trailing_comments` as an `Option`
    #[inline]
    pub fn mut_trailing_comments(&mut self) -> (r: Option<&mut String>)
        ensures
            old(self)._has@[1] ==> r is Some && *r->0 == old(self).trailing_comments && final(self).trailing_comments
                == *final(r->0) && *final(self) == (Location { trailing_comments: final(self).trailing_comments, ..*old(self) }),
            !old(self)._has@[1] ==> r is None && *final(self) == *old(self),
    {
        if self._has.trailing_comments() {
            Some(&mut self.trailing_comments)
        } else {
            None
        }
    }

    ///Set the value and presence of `trailing_comments`
    #[inline]
    pub fn set_trailing_comments(&mut self, value: String) -> (r: &mut Self)
        ensures
            r._has@ == old(self)._has@.update(1, true),
            *r == (Location { trailing_comments: value, _has: r._has, ..*old(self) }),
            *final(self) == *final(r),
    {
        self._has.set_trailing_comments();
        self.trailing_comments = value;
        self
    }

    ///Clear the presence of `trailing_comments`
    #[inline]
    pub fn clear_trailing_comments(&mut self) -> (r: &mut Self)
        ensures
            r._has@ == old(self)._has@.update(1, false),
            *r == (Location { _has: r._has, ..*old(self) }),
            *final(self) == *final(r),
    {
        self._has.clear_trailing_comments();
        self
    }

    ///Take the value of `trailing_comments` and clear its presence
    #[inline]
    pub fn take_trailing_comments(&mut self) -> (r: Option<String>)
        ensures
            r == (if old(self)._has@[1] {
                Some(old(self).trailing_comments)
            } else {
                None
            }),
            final(self)._has@ == old(self)._has@.update(1, false),
            old(self)._has@[1] ==> final(self).trailing_comments@ == Seq::<char>::empty(),
            !old(self)._has@[1] ==> final(self).trailing_comments == old(self).trailing_comments,
            *final(self) == (Location { trailing_comments: final(self).trailing_comments, _has: final(self)._has, ..*old(self) }),
    {
        let val = if self._has.trailing_comments() {
            let mut v: String = String::new();
            std::mem::swap(&mut self.trailing_comments, &mut v);
            Some(v)
        } else {
            None
        };
        self._has.clear_trailing_comments();
        val
    }

    ///Builder method that sets the value of `trailing_comments`. Useful for initializing the message.
    #[inline]
    pub fn init_trailing_comments(self, value: String) -> (r: Self)
        ensures
            r._has@ == self._has@.update(1, true),
            r == (Location { trailing_comments: value, _has: r._has, ..self }),
    {
        let mut s = self;
        s.set_trailing_comments(value);
        s
    }

    /// Merges the value of the field numbered `num`, with wire type `wt`, that starts at
    /// `pos` in `buf` into the message, and gives the position just past the value.
    pub fn merge_field(&mut self, num: u32, wt: u32, buf: &[u8], pos: usize) -> (r: Result<usize, DecodeError>)
        requires
            pos <= buf.len(),
        ensures
            match old(self)@.merge_field(num, wt, buf@.subrange(pos as int, buf.len() as int)) {
                Ok((m, k)) => r matches Ok(next) && next == pos + k && final(self)@ == m,
                Err(e) => r == Err::<usize, DecodeError>(e),
            },
            r matches Ok(next) ==> next <= buf.len(),
            r is Err ==> final(self)@ == old(self)@,
    {
        proof {
            reveal(LocationModel::merge_field);
        }
        match num {
            1 => self.merge_path_field(wt, buf, pos),
            2 => self.merge_span_field(wt, buf, pos),
            3 => self.merge_leading_comments_field(wt, buf, pos),
            4 => self.merge_trailing_comments_field(wt, buf, pos),
            6 => self.merge_leading_detached_comments_field(wt, buf, pos),
            _ => skip_value(buf, pos, buf.len(), wt),
        }
    }

    /// Merges the value of a field numbered 1, starting at `pos` in `buf`, into `path`.
    fn merge_path_field(&mut self, wt: u32, buf: &[u8], pos: usize) -> (r: Result<usize, DecodeError>)
        requires
            pos <= buf.len(),
        ensures
            match old(self)@.merge_field(1, wt, buf@.subrange(pos as int, buf.len() as int)) {
                Ok((m, k)) => r matches Ok(next) && next == pos + k && final(self)@ == m,
                Err(e) => r == Err::<usize, DecodeError>(e),
            },
            r matches Ok(next) ==> next <= buf.len(),
            r is Err ==> final(self)@ == old(self)@,
    {
        proof {
            reveal(LocationModel::merge_field);
        }
        let ghost m0 = self@;
        let end = buf.len();
        if wt == WIRE_TYPE_LEN {
            match read_len(buf, pos, end) {
                Ok((a, b)) => match read_packed_i32(buf, a, b) {
                    Ok(vs) => {
                        let ghost vs0 = vs@;
                        let mut vs = vs;
                        self.path.append(&mut vs);
                        proof {
                            assert(self@ =~= (LocationModel { path: m0.path + vs0, ..m0 }));
                        }
                        Ok(b)
                    },
                    Err(e) => Err(e),
                },
                Err(e) => Err(e),
            }
        } else {
            match read_varint(buf, pos, end) {
                Ok((v, next)) => {
                    self.path.push(to_i32(v));
                    proof {
                        assert(self@ =~= (LocationModel { path: m0.path.push(varint_as_i32(v)), ..m0 }));
                    }
                    Ok(next)
                },
                Err(e) => Err(e),
            }
        }
    }

    /// Merges the value of a field numbered 2, starting at `pos` in `buf`, into `span`.
    fn merge_span_field(&mut self, wt: u32, buf: &[u8], pos: usize) -> (r: Result<usize, DecodeError>)
        requires
            pos <= buf.len(),
        ensures
            match old(self)@.merge_field(2, wt, buf@.subrange(pos as int, buf.len() as int)) {
                Ok((m, k)) => r matches Ok(next) && next == pos + k && final(self)@ == m,
                Err(e) => r == Err::<usize, DecodeError>(e),
            },
            r matches Ok(next) ==> next <= buf.len(),
            r is Err ==> final(self)@ == old(self)@,
    {
        proof {
            reveal(LocationModel::merge_field);
        }
        let ghost m0 = self@;
        let end = buf.len();
        if wt == WIRE_TYPE_LEN {
            match read_len(buf, pos, end) {
                Ok((a, b)) => match read_packed_i32(buf, a, b) {
                    Ok(vs) => {
                        let ghost vs0 = vs@;
                        let mut vs = vs;
                        self.span.append(&mut vs);
                        proof {
                            assert(self@ =~= (LocationModel { span: m0.span + vs0, ..m0 }));
                        }
                        Ok(b)
                    },
                    Err(e) => Err(e),
                },
                Err(e) => Err(e),
            }
        } else {
            match read_varint(buf, pos, end) {
                Ok((v, next)) => {
                    self.span.push(to_i32(v));
                    proof {
                        assert(self@ =~= (LocationModel { span: m0.span.push(varint_as_i32(v)), ..m0 }));
                    }
                    Ok(next)
                },
                Err(e) => Err(e),
            }
        }
    }

    /// Merges the value of a field numbered 3, starting at `pos` in `buf`, into `leading_comments`.
    fn merge_leading_comments_field(&mut self, wt: u32, buf: &[u8], pos: usize) -> (r: Result<usize, DecodeError>)
        requires
            pos <= buf.len(),
        ensures
            match old(self)@.merge_field(3, wt, buf@.subrange(pos as int, buf.len() as int)) {
                Ok((m, k)) => r matches Ok(next) && next == pos + k && final(self)@ == m,
                Err(e) => r == Err::<usize, DecodeError>(e),
            },
            r matches Ok(next) ==> next <= buf.len(),
            r is Err ==> final(self)@ == old(self)@,
    {
        proof {
            reveal(LocationModel::merge_field);
        }
        let ghost m0 = self@;
        let end = buf.len();
        match read_len(buf, pos, end) {
            Ok((a, b)) => match read_string(buf, a, b) {
                Ok(st) => {
                    let ghost t = st@;
                    self.leading_comments = st;
                    self._has.set_leading_comments();
                    proof {
                        assert(self@ =~= (LocationModel { leading_comments: t, _has: m0._has.update(0, true), ..m0 }));
                    }
                    Ok(b)
                },
                Err(e) => Err(e),
            },
            Err(e) => Err(e),
        }
    }

    /// Merges the value of a field numbered 4, starting at `pos` in `buf`, into `trailing_comments`.
    fn merge_trailing_comments_field(&mut self, wt: u32, buf: &[u8], pos: usize) -> (r: Result<usize, DecodeError>)
        requires
            pos <= buf.len(),
        ensures
            match old(self)@.merge_field(4, wt, buf@.subrange(pos as int, buf.len() as int)) {
                Ok((m, k)) => r matches Ok(next) && next == pos + k && final(self)@ == m,
                Err(e) => r == Err::<usize, DecodeError>(e),
            },
            r matches Ok(next) ==> next <= buf.len(),
            r is Err ==> final(self)@ == old(self)@,
    {
        proof {
            reveal(LocationModel::merge_field);
        }
        let ghost m0 = self@;
        let end = buf.len();
        match read_len(buf, pos, end) {
            Ok((a, b)) => match read_string(buf, a, b) {
                Ok(st) => {
                    let ghost t = st@;
                    self.trailing_comments = st;
                    self._has.set_trailing_comments();
                    proof {
                        assert(self@ =~= (LocationModel { trailing_comments: t, _has: m0._has.update(1, true), ..m0 }));
                    }
                    Ok(b)
                },
                Err(e) => Err(e),
            },
            Err(e) => Err(e),
        }
    }

    /// Merges the value of a field numbered 6, starting at `pos` in `buf`, into `leading_detached_comments`.
    fn merge_leading_detached_comments_field(&mut self, wt: u32, buf: &[u8], pos: usize) -> (r: Result<usize, DecodeError>)
        requires
            pos <= buf.len(),
        ensures
            match old(self)@.merge_field(6, wt, buf@.subrange(pos as int, buf.len() as int)) {
                Ok((m, k)) => r matches Ok(next) && next == pos + k && final(self)@ == m,
                Err(e) => r == Err::<usize, DecodeError>(e),
            },
            r matches Ok(next) ==> next <= buf.len(),
            r is Err ==> final(self)@ == old(self)@,
    {
        proof {
            reveal(LocationModel::merge_field);
        }
        let ghost m0 = self@;
        let end = buf.len();
        match read_len(buf, pos, end) {
            Ok((a, b)) => match read_string(buf, a, b) {
                Ok(st) => {
                    let ghost t = st@;
                    self.leading_detached_comments.push(st);
                    proof {
                        assert(self@ =~= (LocationModel { leading_detached_comments: m0.leading_detached_comments.push(t), ..m0 }));
                    }
                    Ok(b)
                },
                Err(e) => Err(e),
            },
            Err(e) => Err(e),
        }
    }

    /// Reads fields from `buf`, from `start` on, into the message while fewer than `len`
    /// bytes have been read, and gives the position just past the last field read.
    #[verifier::rlimit(40)]
    pub fn decode(&mut self, buf: &[u8], start: usize, len: u64) -> (r: Result<usize, DecodeError>)
        requires
            start <= buf.len(),
        ensures
            match old(self)@.decode_stream(buf@.subrange(start as int, buf.len() as int), len as int) {
                Ok((m, c)) => r matches Ok(next) && next == start + c && final(self)@ == m,
                Err(e) => r == Err::<usize, DecodeError>(e),
            },
            r matches Ok(next) ==> next <= buf.len(),
            r is Err ==> final(self)@ == old(self)@.until_error_stream(
                buf@.subrange(start as int, buf.len() as int),
                len as int,
            ),
    {
        let mut pos = start;
        while ((pos - start) as u64) < len
            invariant
                start <= pos <= buf.len(),
                old(self)@.decode_stream(buf@.subrange(start as int, buf.len() as int), len as int)
                    == shift_consumed(
                    self@.decode_stream(buf@.subrange(pos as int, buf.len() as int), len - (pos - start)),
                    (pos - start) as nat,
                ),
                old(self)@.until_error_stream(buf@.subrange(start as int, buf.len() as int), len as int)
                    == self@.until_error_stream(buf@.subrange(pos as int, buf.len() as int), len - (pos - start)),
            decreases buf.len() - pos,
        {
            let ghost s = buf@.subrange(pos as int, buf.len() as int);
            let (num, wt, p) = match read_tag(buf, pos, buf.len()) {
                Ok(x) => x,
                Err(e) => return Err(e),
            };
            if num == 0 {
                return Err(DecodeError::ZeroField);
            }
            proof {
                lemma_tag_bounds(s);
                assert(s.subrange((p - pos) as int, s.len() as int) =~= buf@.subrange(p as int, buf.len() as int));
            }
            let next = match self.merge_field(num, wt, buf, p) {
                Ok(x) => x,
                Err(e) => return Err(e),
            };
            proof {
                let rest = buf@.subrange(p as int, buf.len() as int);
                assert(rest.subrange((next - p) as int, rest.len() as int) =~= buf@.subrange(
                    next as int,
                    buf.len() as int,
                ));
            }
            pos = next;
        }
        Ok(pos)
    }

    /// Merges the fields encoded in `bytes` into the message.
    pub fn decode_from_bytes(&mut self, bytes: &[u8]) -> (r: Result<(), DecodeError>)
        ensures
            match old(self)@.merge_from(bytes@) {
                Ok(m) => r is Ok && final(self)@ == m,
                Err(e) => r == Err::<(), DecodeError>(e),
            },
            r is Err ==> final(self)@ == old(self)@.merge_until_error(bytes@),
    {
        assert(bytes@.subrange(0, bytes@.len() as int) =~= bytes@);
        match self.decode(bytes, 0, bytes.len() as u64) {
            Ok(_) => Ok(()),
            Err(e) => Err(e),
        }
    }
}

} // verus!
