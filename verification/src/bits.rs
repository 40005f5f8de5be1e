//! Presence bitfields: a fixed array of bytes read as a sequence of flags.
use vstd::prelude::*;

verus! {

/// Whether bit `k` (counting from the least significant bit) of `b` is set.
pub open spec fn bit_set(b: u8, k: u8) -> bool {
    (b >> k) & 1u8 == 1u8
}

/// The flags held by a sequence of bytes: flag `i` is bit `i % 8` of byte `i / 8`.
pub open spec fn flags_of(bytes: Seq<u8>) -> Seq<bool> {
    Seq::new(bytes.len() * 8, |i: int| bit_set(bytes[i / 8], (i % 8) as u8))
}

proof fn lemma_or_bit(b: u8, k: u8, j: u8)
    by (bit_vector)
    requires
        k < 8,
        j < 8,
    ensures
        bit_set(b | (1u8 << k), j) == (j == k || bit_set(b, j)),
{
}

proof fn lemma_and_not_bit(b: u8, k: u8, j: u8)
    by (bit_vector)
    requires
        k < 8,
        j < 8,
    ensures
        bit_set(b & !(1u8 << k), j) == (j != k && bit_set(b, j)),
{
}

/// Setting bit `k` of byte `byte` sets exactly flag `byte * 8 + k`.
pub proof fn lemma_flags_set(old: Seq<u8>, new: Seq<u8>, byte: int, k: u8)
    requires
        0 <= byte < old.len(),
        k < 8,
        new == old.update(byte, old[byte] | (1u8 << k)),
    ensures
        flags_of(new) == flags_of(old).update(byte * 8 + k, true),
{
    assert forall|i: int| 0 <= i < old.len() * 8 implies #[trigger] flags_of(new)[i] == flags_of(
        old,
    ).update(byte * 8 + k, true)[i] by {
        if i / 8 == byte {
            lemma_or_bit(old[byte], k, (i % 8) as u8);
        }
    }
    assert(flags_of(new) =~= flags_of(old).update(byte * 8 + k, true));
}

/// Clearing bit `k` of byte `byte` clears exactly flag `byte * 8 + k`.
pub proof fn lemma_flags_clear(old: Seq<u8>, new: Seq<u8>, byte: int, k: u8)
    requires
        0 <= byte < old.len(),
        k < 8,
        new == old.update(byte, old[byte] & !(1u8 << k)),
    ensures
        flags_of(new) == flags_of(old).update(byte * 8 + k, false),
{
    assert forall|i: int| 0 <= i < old.len() * 8 implies #[trigger] flags_of(new)[i] == flags_of(
        old,
    ).update(byte * 8 + k, false)[i] by {
        if i / 8 == byte {
            lemma_and_not_bit(old[byte], k, (i % 8) as u8);
        }
    }
    assert(flags_of(new) =~= flags_of(old).update(byte * 8 + k, false));
}

/// Reading bit `k` of byte `byte` reads flag `byte * 8 + k`.
pub proof fn lemma_flags_get(bytes: Seq<u8>, byte: int, k: u8)
    requires
        0 <= byte < bytes.len(),
        k < 8,
    ensures
        flags_of(bytes)[byte * 8 + k] == ((bytes[byte] & (1u8 << k)) != 0u8),
{
    let b = bytes[byte];
    assert(((b & (1u8 << k)) != 0u8) == bit_set(b, k)) by (bit_vector)
        requires k < 8;
}

/// A byte of zeros holds no flag.
pub proof fn lemma_flags_zero(bytes: Seq<u8>)
    requires
        forall|i: int| 0 <= i < bytes.len() ==> bytes[i] == 0u8,
    ensures
        forall|i: int| 0 <= i < bytes.len() * 8 ==> !#[trigger] flags_of(bytes)[i],
{
    assert forall|i: int| 0 <= i < bytes.len() * 8 implies !#[trigger] flags_of(bytes)[i] by {
        let j = (i % 8) as u8;
        assert(bit_set(0u8, j) == false) by (bit_vector);
    }
}

} // verus!
