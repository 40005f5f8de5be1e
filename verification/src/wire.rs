//! The Protobuf wire format: varints, tags, fixed-width values and length-delimited
//! payloads, read from a byte buffer.
use vstd::prelude::*;
use vstd::utf8::{decode_utf8, valid_utf8};

verus! {

/// Why a buffer could not be decoded as a Protobuf message.
#[derive(Debug, Clone, Copy, PartialEq, Eq, Structural)]
pub enum DecodeError {
    /// A field carried the number 0, which no field may have.
    ZeroField,
    /// The buffer ended inside a value.
    UnexpectedEof,
    /// A field used the deprecated group encoding.
    Deprecation,
    /// A field used a wire type that Protobuf does not define.
    UnknownWireType,
    /// A varint ran on past ten bytes.
    VarIntLimit,
    /// A `string` field did not hold valid UTF-8.
    Utf8,
}

/// Wire type of varint-encoded values.
pub const WIRE_TYPE_VARINT: u32 = 0;
/// Wire type of 64-bit fixed-width values.
pub const WIRE_TYPE_I64: u32 = 1;
/// Wire type of length-delimited values.
pub const WIRE_TYPE_LEN: u32 = 2;
/// Wire type that starts a group.
pub const WIRE_TYPE_SGROUP: u32 = 3;
/// Wire type that ends a group.
pub const WIRE_TYPE_EGROUP: u32 = 4;
/// Wire type of 32-bit fixed-width values.
pub const WIRE_TYPE_I32: u32 = 5;

/// The most bytes a varint may take.
pub const VARINT_MAX_LEN: usize = 10;

/// Reads a varint from byte `i` on, where `acc` holds the value of bytes `0..i` and
/// `scale` is `128` to the power `i`. Gives the value and the number of bytes read.
pub open spec fn varint_from(s: Seq<u8>, i: nat, acc: int, scale: int) -> Result<
    (int, nat),
    DecodeError,
>
    decreases VARINT_MAX_LEN - i,
{
    if i >= VARINT_MAX_LEN {
        Err(DecodeError::VarIntLimit)
    } else if i >= s.len() {
        Err(DecodeError::UnexpectedEof)
    } else if s[i as int] < 128 {
        Ok((acc + s[i as int] * scale, i + 1))
    } else {
        varint_from(s, i + 1, acc + (s[i as int] - 128) * scale, scale * 128)
    }
}

/// The varint at the start of `s`, reduced to 64 bits, and its length in bytes: the
/// low seven bits of each byte, least significant group first, until a byte whose top
/// bit is clear.
pub open spec fn parse_varint(s: Seq<u8>) -> Result<(u64, nat), DecodeError> {
    match varint_from(s, 0, 0, 1) {
        Ok((v, n)) => Ok(((v % 0x1_0000_0000_0000_0000) as u64, n)),
        Err(e) => Err(e),
    }
}

/// The low 32 bits of a varint as a two's-complement `int32`.
pub open spec fn varint_as_i32(v: u64) -> i32 {
    let low = v % 0x1_0000_0000;
    if low >= 0x8000_0000 {
        (low - 0x1_0000_0000) as i32
    } else {
        low as i32
    }
}

/// A varint as a two's-complement `int64`.
pub open spec fn varint_as_i64(v: u64) -> i64 {
    if v >= 0x8000_0000_0000_0000 {
        (v - 0x1_0000_0000_0000_0000) as i64
    } else {
        v as i64
    }
}

/// The little-endian value of the first eight bytes of `s`.
pub open spec fn le_u64(s: Seq<u8>) -> u64 {
    (s[0] + s[1] * 0x100 + s[2] * 0x1_0000 + s[3] * 0x100_0000 + s[4] * 0x1_0000_0000 + s[5]
        * 0x100_0000_0000 + s[6] * 0x1_0000_0000_0000 + s[7] * 0x100_0000_0000_0000) as u64
}

/// The tag at the start of `s`: its field number, its wire type, and its length in bytes.
/// A tag is a varint whose low 32 bits hold the wire type in their low three bits and the
/// field number above them.
pub open spec fn parse_tag(s: Seq<u8>) -> Result<(u32, u32, nat), DecodeError> {
    match parse_varint(s) {
        Ok((t, n)) => {
            let tag = t % 0x1_0000_0000;
            Ok(((tag / 8) as u32, (tag % 8) as u32, n))
        },
        Err(e) => Err(e),
    }
}

/// The length-delimited value at the start of `s`: a varint length, then that many bytes.
/// Gives the bytes and the length of the whole value.
pub open spec fn parse_len(s: Seq<u8>) -> Result<(Seq<u8>, nat), DecodeError> {
    match parse_varint(s) {
        Ok((len, m)) => if len <= s.len() - m {
            Ok((s.subrange(m as int, m + len), (m + len) as nat))
        } else {
            Err(DecodeError::UnexpectedEof)
        },
        Err(e) => Err(e),
    }
}

/// The 64-bit little-endian value at the start of `s`, and its length.
pub open spec fn parse_fixed64(s: Seq<u8>) -> Result<(u64, nat), DecodeError> {
    if s.len() >= 8 {
        Ok((le_u64(s), 8))
    } else {
        Err(DecodeError::UnexpectedEof)
    }
}

/// How many bytes a value of wire type `wt` at the start of `s` takes, when it is skipped.
pub open spec fn skip_len(s: Seq<u8>, wt: u32) -> Result<nat, DecodeError> {
    if wt == WIRE_TYPE_VARINT {
        match parse_varint(s) {
            Ok((v, n)) => Ok(n),
            Err(e) => Err(e),
        }
    } else if wt == WIRE_TYPE_I64 {
        if s.len() >= 8 {
            Ok(8)
        } else {
            Err(DecodeError::UnexpectedEof)
        }
    } else if wt == WIRE_TYPE_LEN {
        match parse_len(s) {
            Ok((p, n)) => Ok(n),
            Err(e) => Err(e),
        }
    } else if wt == WIRE_TYPE_I32 {
        if s.len() >= 4 {
            Ok(4)
        } else {
            Err(DecodeError::UnexpectedEof)
        }
    } else if wt == WIRE_TYPE_SGROUP || wt == WIRE_TYPE_EGROUP {
        Err(DecodeError::Deprecation)
    } else {
        Err(DecodeError::UnknownWireType)
    }
}

/// A read result with `d` more bytes counted as read.
pub open spec fn shift_consumed<M>(r: Result<(M, nat), DecodeError>, d: nat) -> Result<(M, nat), DecodeError> {
    match r {
        Ok((m, c)) => Ok((m, c + d)),
        Err(e) => Err(e),
    }
}

/// The `int32` values packed one varint after another in `s`.
pub open spec fn parse_packed_i32(s: Seq<u8>) -> Result<Seq<i32>, DecodeError>
    decreases s.len(),
{
    if s.len() == 0 {
        Ok(Seq::empty())
    } else {
        match parse_varint(s) {
            Err(e) => Err(e),
            Ok((v, n)) => if 0 < n <= s.len() {
                match parse_packed_i32(s.subrange(n as int, s.len() as int)) {
                    Ok(rest) => Ok(seq![varint_as_i32(v)] + rest),
                    Err(e) => Err(e),
                }
            } else {
                Err(DecodeError::UnexpectedEof)
            },
        }
    }
}

/// The text of a `string` field: its payload decoded as UTF-8.
pub open spec fn parse_string(p: Seq<u8>) -> Result<Seq<char>, DecodeError> {
    if valid_utf8(p) {
        Ok(decode_utf8(p))
    } else {
        Err(DecodeError::Utf8)
    }
}

proof fn lemma_varint_from_bounds(s: Seq<u8>, i: nat, acc: int, scale: int)
    requires
        i <= VARINT_MAX_LEN,
    ensures
        varint_from(s, i, acc, scale) matches Ok((v, n)) ==> i < n <= s.len() && n <= VARINT_MAX_LEN,
    decreases VARINT_MAX_LEN - i,
{
    if i < VARINT_MAX_LEN && i < s.len() && s[i as int] >= 128 {
        lemma_varint_from_bounds(s, i + 1, acc + (s[i as int] - 128) * scale, scale * 128);
    }
}

/// A varint takes between one and ten bytes of its input.
pub proof fn lemma_varint_bounds(s: Seq<u8>)
    ensures
        parse_varint(s) matches Ok((v, n)) ==> 0 < n <= s.len() && n <= VARINT_MAX_LEN,
{
    lemma_varint_from_bounds(s, 0, 0, 1);
}

/// A tag takes between one byte and its whole input.
pub proof fn lemma_tag_bounds(s: Seq<u8>)
    ensures
        parse_tag(s) matches Ok((num, wt, n)) ==> 0 < n <= s.len(),
{
    lemma_varint_bounds(s);
}

/// A length-delimited value takes more bytes than its payload, and no more than its input.
pub proof fn lemma_len_bounds(s: Seq<u8>)
    ensures
        parse_len(s) matches Ok((p, n)) ==> p.len() < n <= s.len(),
{
    lemma_varint_bounds(s);
}

proof fn lemma_varint_from_prefix(a: Seq<u8>, b: Seq<u8>, i: nat, acc: int, scale: int)
    requires
        i <= VARINT_MAX_LEN,
        varint_from(a, i, acc, scale) is Ok,
    ensures
        varint_from(a + b, i, acc, scale) == varint_from(a, i, acc, scale),
    decreases VARINT_MAX_LEN - i,
{
    assert((a + b)[i as int] == a[i as int]);
    if a[i as int] >= 128 {
        lemma_varint_from_prefix(a, b, i + 1, acc + (a[i as int] - 128) * scale, scale * 128);
    }
}

/// A varint that can be read from `a` reads the same from `a` followed by anything.
pub proof fn lemma_varint_prefix(a: Seq<u8>, b: Seq<u8>)
    requires
        parse_varint(a) is Ok,
    ensures
        parse_varint(a + b) == parse_varint(a),
{
    lemma_varint_from_prefix(a, b, 0, 0, 1);
}

/// Whatever value can be read from the start of `a` reads the same from `a` followed by
/// anything: a varint, a tag, a length-delimited value, a fixed 64-bit value, and a value
/// of any wire type that is skipped.
pub proof fn lemma_values_prefix(a: Seq<u8>, b: Seq<u8>)
    ensures
        parse_varint(a) is Ok ==> parse_varint(a + b) == parse_varint(a),
        parse_tag(a) is Ok ==> parse_tag(a + b) == parse_tag(a),
        parse_len(a) is Ok ==> parse_len(a + b) == parse_len(a),
        parse_fixed64(a) is Ok ==> parse_fixed64(a + b) == parse_fixed64(a),
        forall|wt: u32| skip_len(a, wt) is Ok ==> #[trigger] skip_len(a + b, wt) == skip_len(a, wt),
{
    if parse_varint(a) is Ok {
        lemma_varint_prefix(a, b);
        lemma_varint_bounds(a);
        let (len, m) = parse_varint(a)->Ok_0;
        if len <= a.len() - m {
            assert((a + b).subrange(m as int, m + len) =~= a.subrange(m as int, m + len));
        }
    }
    if a.len() >= 8 {
        let ab = a + b;
        assert(ab[0] == a[0] && ab[1] == a[1] && ab[2] == a[2] && ab[3] == a[3]);
        assert(ab[4] == a[4] && ab[5] == a[5] && ab[6] == a[6] && ab[7] == a[7]);
    }
}

/// A byte below 128 is a whole varint: its value, in one byte, whatever follows it.
pub proof fn lemma_varint_one_byte(b: u8, rest: Seq<u8>)
    requires
        b < 128,
    ensures
        parse_varint(seq![b] + rest) == Ok::<(u64, nat), DecodeError>((b as u64, 1)),
{
    assert((seq![b] + rest)[0] == b);
}

/// A byte with its top bit set, then a byte below 128, is a two-byte varint: the low seven
/// bits of the first byte, then the second byte above them.
pub proof fn lemma_varint_two_bytes(b0: u8, b1: u8, rest: Seq<u8>)
    requires
        b0 >= 128,
        b1 < 128,
    ensures
        parse_varint(seq![b0, b1] + rest) == Ok::<(u64, nat), DecodeError>((((b0 - 128) + 128 * b1) as u64, 2)),
{
    let s = seq![b0, b1] + rest;
    assert(s[0] == b0 && s[1] == b1);
    assert(varint_from(s, 1, b0 - 128, 128) == Ok::<(int, nat), DecodeError>(((b0 - 128) + b1 * 128, 2)));
}

/// A one-byte tag holds the field number in its upper five bits and the wire type in its
/// low three.
pub proof fn lemma_tag_one_byte(b: u8, rest: Seq<u8>)
    requires
        b < 128,
    ensures
        parse_tag(seq![b] + rest) == Ok::<(u32, u32, nat), DecodeError>(((b / 8) as u32, (b % 8) as u32, 1)),
{
    lemma_varint_one_byte(b, rest);
}

/// A length-delimited value with a one-byte length is that many payload bytes after it,
/// whatever follows them.
pub proof fn lemma_len_one_byte(payload: Seq<u8>, rest: Seq<u8>)
    requires
        payload.len() < 128,
    ensures
        parse_len(seq![payload.len() as u8] + payload + rest) == Ok::<(Seq<u8>, nat), DecodeError>(
            (payload, payload.len() + 1),
        ),
{
    let s = seq![payload.len() as u8] + payload + rest;
    assert(s =~= seq![payload.len() as u8] + (payload + rest));
    lemma_varint_one_byte(payload.len() as u8, payload + rest);
    assert(s.subrange(1, 1 + payload.len() as int) =~= payload);
}

/// Skipping a value takes exactly the bytes that reading it as its wire type takes, and
/// the group and undefined wire types are refused.
pub proof fn lemma_skip_len_matches_reads(s: Seq<u8>, wt: u32)
    ensures
        wt == WIRE_TYPE_VARINT ==> skip_len(s, wt) == match parse_varint(s) {
            Ok((v, n)) => Ok::<nat, DecodeError>(n),
            Err(e) => Err(e),
        },
        wt == WIRE_TYPE_LEN ==> skip_len(s, wt) == match parse_len(s) {
            Ok((p, n)) => Ok::<nat, DecodeError>(n),
            Err(e) => Err(e),
        },
        wt == WIRE_TYPE_I64 ==> skip_len(s, wt) == match parse_fixed64(s) {
            Ok((v, n)) => Ok::<nat, DecodeError>(n),
            Err(e) => Err(e),
        },
        wt == WIRE_TYPE_I32 && s.len() >= 4 ==> skip_len(s, wt) == Ok::<nat, DecodeError>(4),
        wt == WIRE_TYPE_SGROUP || wt == WIRE_TYPE_EGROUP ==> skip_len(s, wt) == Err::<nat, DecodeError>(
            DecodeError::Deprecation,
        ),
        wt > WIRE_TYPE_I32 ==> skip_len(s, wt) == Err::<nat, DecodeError>(DecodeError::UnknownWireType),
{
}

/// Packed values are read one after another: a one-byte varint first, then the values
/// packed after it.
pub proof fn lemma_packed_one_byte(b: u8, rest: Seq<u8>)
    requires
        b < 128,
    ensures
        parse_packed_i32(seq![b] + rest) == match parse_packed_i32(rest) {
            Ok(vs) => Ok::<Seq<i32>, DecodeError>(seq![b as i32] + vs),
            Err(e) => Err(e),
        },
        parse_packed_i32(Seq::empty()) == Ok::<Seq<i32>, DecodeError>(Seq::empty()),
{
    let s = seq![b] + rest;
    lemma_varint_one_byte(b, rest);
    assert(s.subrange(1, s.len() as int) =~= rest);
}

/// An `int32` read from a varint is the varint modulo 2 to the 32nd power, in range.
pub proof fn lemma_varint_as_i32(v: u64)
    ensures
        varint_as_i32(v) as int % 0x1_0000_0000 == v % 0x1_0000_0000,
{
}

/// An `int64` read from a varint is the varint modulo 2 to the 64th power, in range.
pub proof fn lemma_varint_as_i64(v: u64)
    ensures
        varint_as_i64(v) as int % 0x1_0000_0000_0000_0000 == v as int,
{
}

/// `128` to the power `i`.
pub open spec fn varint_scale(i: nat) -> int
    decreases i,
{
    if i == 0 {
        1
    } else {
        128 * varint_scale((i - 1) as nat)
    }
}

proof fn lemma_varint_scale_bound(i: nat)
    requires
        i <= 9,
    ensures
        1 <= varint_scale(i) <= varint_scale(9),
        varint_scale(9) == 0x8000_0000_0000_0000,
    decreases 9 - i,
{
    reveal_with_fuel(varint_scale, 10);
    if i < 9 {
        lemma_varint_scale_bound(i + 1);
    }
}

/// Reads the varint that starts at `pos`, reading no byte at or past `end`.
pub fn read_varint(buf: &[u8], pos: usize, end: usize) -> (r: Result<(u64, usize), DecodeError>)
    requires
        pos <= end <= buf.len(),
    ensures
        match parse_varint(buf@.subrange(pos as int, end as int)) {
            Ok((v, n)) => r matches Ok((v2, next)) && v2 == v && next == pos + n,
            Err(e) => r == Err::<(u64, usize), DecodeError>(e),
        },
        r matches Ok((v, next)) ==> pos < next <= end,
{
    let ghost s = buf@.subrange(pos as int, end as int);
    let mut i: usize = 0;
    let mut acc: u128 = 0;
    let mut scale: u128 = 1;
    proof {
        lemma_varint_scale_bound(0);
    }
    while i < VARINT_MAX_LEN
        invariant
            pos <= end <= buf.len(),
            s == buf@.subrange(pos as int, end as int),
            i <= VARINT_MAX_LEN,
            i < VARINT_MAX_LEN ==> 0 <= acc < scale,
            0 <= acc,
            i < VARINT_MAX_LEN ==> scale == varint_scale(i as nat),
            scale <= 0x8000_0000_0000_0000,
            varint_from(s, 0, 0, 1) == varint_from(s, i as nat, acc as int, scale as int),
        decreases VARINT_MAX_LEN - i,
    {
        if i >= end - pos {
            return Err(DecodeError::UnexpectedEof);
        }
        let b = buf[pos + i];
        assert(b == s[i as int]);
        if b < 128 {
            assert(acc + b * scale < 0x1_0000_0000_0000_0000_0000_0000) by (nonlinear_arith)
                requires
                    acc < scale,
                    scale <= 0x8000_0000_0000_0000,
                    b < 128,
            ;
            let v = acc + (b as u128) * scale;
            return Ok(((v % 0x1_0000_0000_0000_0000) as u64, pos + i + 1));
        }
        assert(acc + (b - 128) * scale < scale * 128) by (nonlinear_arith)
            requires
                acc < scale,
                b < 256,
                b >= 128,
        ;
        acc = acc + ((b - 128) as u128) * scale;
        if i + 1 < VARINT_MAX_LEN {
            proof {
                lemma_varint_scale_bound((i + 1) as nat);
            }
            scale = scale * 128;
        }
        i = i + 1;
    }
    Err(DecodeError::VarIntLimit)
}

/// The low 32 bits of a varint as a two's-complement `int32`.
pub fn to_i32(v: u64) -> (r: i32)
    ensures
        r == varint_as_i32(v),
{
    let low = v % 0x1_0000_0000;
    if low >= 0x8000_0000 {
        (low as i64 - 0x1_0000_0000) as i32
    } else {
        low as i32
    }
}

/// A varint as a two's-complement `int64`.
pub fn to_i64(v: u64) -> (r: i64)
    ensures
        r == varint_as_i64(v),
{
    if v >= 0x8000_0000_0000_0000 {
        (v as i128 - 0x1_0000_0000_0000_0000) as i64
    } else {
        v as i64
    }
}

/// Reads the tag that starts at `pos`, reading no byte at or past `end`, and gives its
/// field number, its wire type and the position just past it.
pub fn read_tag(buf: &[u8], pos: usize, end: usize) -> (r: Result<(u32, u32, usize), DecodeError>)
    requires
        pos <= end <= buf.len(),
    ensures
        match parse_tag(buf@.subrange(pos as int, end as int)) {
            Ok((num, wt, n)) => r matches Ok((num2, wt2, next)) && num2 == num && wt2 == wt && next == pos + n,
            Err(e) => r == Err::<(u32, u32, usize), DecodeError>(e),
        },
        r matches Ok((num, wt, next)) ==> pos < next <= end,
{
    let (t, p) = match read_varint(buf, pos, end) {
        Ok(x) => x,
        Err(e) => return Err(e),
    };
    let tag = t % 0x1_0000_0000;
    Ok(((tag / 8) as u32, (tag % 8) as u32, p))
}

/// Reads the length-delimited value that starts at `pos`, reading no byte at or past
/// `end`, and gives the bounds of its payload, which ends where the value does.
pub fn read_len(buf: &[u8], pos: usize, end: usize) -> (r: Result<(usize, usize), DecodeError>)
    requires
        pos <= end <= buf.len(),
    ensures
        match parse_len(buf@.subrange(pos as int, end as int)) {
            Ok((p, n)) => r matches Ok((a, b)) && pos < a <= b <= end && b == pos + n
                && buf@.subrange(a as int, b as int) == p,
            Err(e) => r == Err::<(usize, usize), DecodeError>(e),
        },
{
    let ghost s = buf@.subrange(pos as int, end as int);
    let (len, q) = match read_varint(buf, pos, end) {
        Ok(x) => x,
        Err(e) => return Err(e),
    };
    if len > (end - q) as u64 {
        return Err(DecodeError::UnexpectedEof);
    }
    let stop = q + len as usize;
    assert(s.subrange((q - pos) as int, (q - pos) + len) =~= buf@.subrange(q as int, stop as int));
    Ok((q, stop))
}

/// Reads the 64-bit little-endian value that starts at `pos`, reading no byte at or past
/// `end`, and gives it and the position just past it.
pub fn read_fixed64(buf: &[u8], pos: usize, end: usize) -> (r: Result<(u64, usize), DecodeError>)
    requires
        pos <= end <= buf.len(),
    ensures
        match parse_fixed64(buf@.subrange(pos as int, end as int)) {
            Ok((v, n)) => r matches Ok((v2, next)) && v2 == v && next == pos + n,
            Err(e) => r == Err::<(u64, usize), DecodeError>(e),
        },
        r matches Ok((v, next)) ==> pos < next <= end,
{
    let ghost s = buf@.subrange(pos as int, end as int);
    if end - pos < 8 {
        return Err(DecodeError::UnexpectedEof);
    }
    let p = pos;
    assert(s[0] == buf[p as int] && s[1] == buf[p + 1] && s[2] == buf[p + 2] && s[3] == buf[p + 3]);
    assert(s[4] == buf[p + 4] && s[5] == buf[p + 5] && s[6] == buf[p + 6] && s[7] == buf[p + 7]);
    let v = (buf[p] as u64) + (buf[p + 1] as u64) * 0x100 + (buf[p + 2] as u64) * 0x1_0000 + (buf[p
        + 3] as u64) * 0x100_0000 + (buf[p + 4] as u64) * 0x1_0000_0000 + (buf[p + 5] as u64)
        * 0x100_0000_0000 + (buf[p + 6] as u64) * 0x1_0000_0000_0000 + (buf[p + 7] as u64)
        * 0x100_0000_0000_0000;
    Ok((v, p + 8))
}

/// Skips the value of wire type `wt` that starts at `pos`, reading no byte at or past
/// `end`, and gives the position just past it.
pub fn skip_value(buf: &[u8], pos: usize, end: usize, wt: u32) -> (r: Result<usize, DecodeError>)
    requires
        pos <= end <= buf.len(),
    ensures
        match skip_len(buf@.subrange(pos as int, end as int), wt) {
            Ok(n) => r matches Ok(next) && next == pos + n,
            Err(e) => r == Err::<usize, DecodeError>(e),
        },
        r matches Ok(next) ==> pos < next <= end,
{
    if wt == WIRE_TYPE_VARINT {
        match read_varint(buf, pos, end) {
            Ok((v, next)) => Ok(next),
            Err(e) => Err(e),
        }
    } else if wt == WIRE_TYPE_I64 {
        if end - pos < 8 {
            Err(DecodeError::UnexpectedEof)
        } else {
            Ok(pos + 8)
        }
    } else if wt == WIRE_TYPE_LEN {
        match read_len(buf, pos, end) {
            Ok((a, b)) => Ok(b),
            Err(e) => Err(e),
        }
    } else if wt == WIRE_TYPE_I32 {
        if end - pos < 4 {
            Err(DecodeError::UnexpectedEof)
        } else {
            Ok(pos + 4)
        }
    } else if wt == WIRE_TYPE_SGROUP || wt == WIRE_TYPE_EGROUP {
        Err(DecodeError::Deprecation)
    } else {
        Err(DecodeError::UnknownWireType)
    }
}

/// Copies the bytes `a..b` of `buf`.
pub fn copy_bytes(buf: &[u8], a: usize, b: usize) -> (r: Vec<u8>)
    requires
        a <= b <= buf.len(),
    ensures
        r@ == buf@.subrange(a as int, b as int),
{
    let mut v: Vec<u8> = Vec::new();
    let mut i = a;
    while i < b
        invariant
            a <= i <= b <= buf.len(),
            v@ == buf@.subrange(a as int, i as int),
        decreases b - i,
    {
        v.push(buf[i]);
        assert(v@ =~= buf@.subrange(a as int, (i + 1) as int));
        i = i + 1;
    }
    v
}

/// Builds a `String` from bytes when they are valid UTF-8.
///
/// Calls `String::from_utf8`, which std documents to succeed exactly when the bytes
/// are valid UTF-8, the `String` then holding the characters that they encode. Its
/// error, which also hands the bytes back, is dropped.
#[verifier::external_body]
fn string_from_utf8(bytes: Vec<u8>) -> (r: Option<String>)
    ensures
        r is Some <==> valid_utf8(bytes@),
        r matches Some(s) ==> s@ == decode_utf8(bytes@),
{
    match String::from_utf8(bytes) {
        Ok(s) => Some(s),
        Err(_) => None,
    }
}

/// Reads the payload `a..b` of `buf` as the text of a `string` field.
pub fn read_string(buf: &[u8], a: usize, b: usize) -> (r: Result<String, DecodeError>)
    requires
        a <= b <= buf.len(),
    ensures
        match parse_string(buf@.subrange(a as int, b as int)) {
            Ok(t) => r matches Ok(s) && s@ == t,
            Err(e) => r matches Err(e2) && e2 == e,
        },
{
    let bytes = copy_bytes(buf, a, b);
    match string_from_utf8(bytes) {
        Some(s) => Ok(s),
        None => Err(DecodeError::Utf8),
    }
}

/// Reads the payload `a..b` of `buf` as packed `int32` values.
pub fn read_packed_i32(buf: &[u8], a: usize, b: usize) -> (r: Result<Vec<i32>, DecodeError>)
    requires
        a <= b <= buf.len(),
    ensures
        match parse_packed_i32(buf@.subrange(a as int, b as int)) {
            Ok(t) => r matches Ok(v) && v@ == t,
            Err(e) => r matches Err(e2) && e2 == e,
        },
{
    let ghost whole = buf@.subrange(a as int, b as int);
    let mut out: Vec<i32> = Vec::new();
    let mut pos = a;
    while pos < b
        invariant
            a <= pos <= b <= buf.len(),
            whole == buf@.subrange(a as int, b as int),
            parse_packed_i32(whole) == match parse_packed_i32(buf@.subrange(pos as int, b as int)) {
                Ok(rest) => Ok::<Seq<i32>, DecodeError>(out@ + rest),
                Err(e) => Err(e),
            },
        decreases b - pos,
    {
        let ghost s = buf@.subrange(pos as int, b as int);
        let (v, next) = match read_varint(buf, pos, b) {
            Ok(x) => x,
            Err(e) => return Err(e),
        };
        proof {
            lemma_varint_bounds(s);
            assert(s.subrange((next - pos) as int, s.len() as int) =~= buf@.subrange(next as int, b as int));
            let ghost old_out = out@;
            match parse_packed_i32(buf@.subrange(next as int, b as int)) {
                Ok(rest) => {
                    assert(old_out + (seq![varint_as_i32(v)] + rest) =~= old_out.push(varint_as_i32(v)) + rest);
                },
                Err(e) => {},
            }
        }
        out.push(to_i32(v));
        pos = next;
    }
    proof {
        assert(buf@.subrange(pos as int, b as int) =~= Seq::<u8>::empty());
        assert(out@ + Seq::<i32>::empty() =~= out@);
    }
    Ok(out)
}

} // verus!
