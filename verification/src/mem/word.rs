//! Machine words as bytes, the least significant byte first.

use vstd::prelude::*;

verus! {

/// The number of bytes in a machine word.
pub open spec fn word_size() -> nat {
    (usize::BITS / 8) as nat
}

/// The number that some bytes stand for.
pub open spec fn le_value(bytes: Seq<u8>) -> nat
    decreases bytes.len(),
{
    if bytes.len() == 0 {
        0
    } else {
        bytes[0] as nat + 256 * le_value(bytes.drop_first())
    }
}

/// The lowest `n` bytes of a number.
pub open spec fn le_bytes(value: nat, n: nat) -> Seq<u8>
    decreases n,
{
    if n == 0 {
        Seq::empty()
    } else {
        seq![(value % 256) as u8] + le_bytes(value / 256, (n - 1) as nat)
    }
}

/// How many numbers `n` bytes can stand for.
pub open spec fn pow256(n: nat) -> nat
    decreases n,
{
    if n == 0 {
        1
    } else {
        256 * pow256((n - 1) as nat)
    }
}

/// A word is four or eight bytes, and holds what so many bytes can stand for.
pub proof fn lemma_word_size()
    ensures
        word_size() == 4 || word_size() == 8,
        pow256(word_size()) == usize::MAX + 1,
{
    reveal_with_fuel(pow256, 9);
}

/// A larger number of bytes can stand for no fewer numbers.
pub proof fn lemma_pow256_grows(m: nat, n: nat)
    requires
        m <= n,
    ensures
        pow256(m) <= pow256(n),
    decreases n,
{
    if m < n {
        lemma_pow256_grows(m, (n - 1) as nat);
    }
}

/// Bytes stand for a number within their range.
pub proof fn lemma_le_value_bound(bytes: Seq<u8>)
    ensures
        le_value(bytes) < pow256(bytes.len()),
    decreases bytes.len(),
{
    if bytes.len() > 0 {
        lemma_le_value_bound(bytes.drop_first());
    }
}

/// The bytes of a number that fits are `n` in number and stand for it.
pub proof fn lemma_le_bytes(value: nat, n: nat)
    requires
        value < pow256(n),
    ensures
        le_bytes(value, n).len() == n,
        le_value(le_bytes(value, n)) == value,
    decreases n,
{
    if n > 0 {
        lemma_le_bytes(value / 256, (n - 1) as nat);
        let bytes = le_bytes(value, n);
        assert(bytes.drop_first() =~= le_bytes(value / 256, (n - 1) as nat));
    }
}

/// There are as many bytes as asked for, whatever the number.
pub proof fn lemma_le_bytes_len(value: nat, n: nat)
    ensures
        le_bytes(value, n).len() == n,
    decreases n,
{
    if n > 0 {
        lemma_le_bytes_len(value / 256, (n - 1) as nat);
    }
}

/// The number of bytes in a machine word.
pub fn size_of_word() -> (size: usize)
    ensures
        size == word_size(),
        size == 4 || size == 8,
{
    broadcast use vstd::layout::layout_of_primitives;

    proof {
        lemma_word_size();
    }
    core::mem::size_of::<usize>()
}

/// Adds the lowest `n` bytes of a number to the end of `out`.
pub(crate) fn push_le_bytes(out: &mut Vec<u8>, value: u64, n: usize)
    ensures
        final(out)@ == old(out)@ + le_bytes(value as nat, n as nat),
{
    let mut rest = value;
    let mut i: usize = 0;
    assert(out@ + le_bytes(rest as nat, n as nat) == old(out)@ + le_bytes(
        value as nat,
        n as nat,
    ));
    while i < n
        invariant
            i <= n,
            out@ + le_bytes(rest as nat, (n - i) as nat) == old(out)@ + le_bytes(
                value as nat,
                n as nat,
            ),
        decreases n - i,
    {
        let byte = (rest % 256) as u8;
        proof {
            let tail = le_bytes(rest as nat / 256, (n - i - 1) as nat);
            assert(le_bytes(rest as nat, (n - i) as nat) == seq![byte] + tail);
            assert(out@.push(byte) + tail =~= out@ + (seq![byte] + tail));
        }
        out.push(byte);
        rest = rest / 256;
        i = i + 1;
    }
    assert(out@ + le_bytes(rest as nat, 0) =~= out@);
}

/// The number that some bytes stand for.
pub(crate) fn from_le_bytes(bytes: &Vec<u8>) -> (value: u64)
    requires
        bytes@.len() <= 8,
    ensures
        value == le_value(bytes@),
{
    let mut value: u64 = 0;
    let mut i: usize = bytes.len();
    assert(bytes@.skip(i as int) =~= Seq::<u8>::empty());
    while i > 0
        invariant
            i <= bytes@.len() <= 8,
            value == le_value(bytes@.skip(i as int)),
        decreases i,
    {
        i = i - 1;
        proof {
            let tail = bytes@.skip(i as int + 1);
            let here = bytes@.skip(i as int);
            assert(here.drop_first() =~= tail);
            assert(here[0] == bytes@[i as int]);
            lemma_le_value_bound(here);
            lemma_pow256_grows(here.len(), 8);
            reveal_with_fuel(pow256, 9);
        }
        value = value * 256 + bytes[i] as u64;
    }
    assert(bytes@.skip(0) =~= bytes@);
    value
}

} // verus!
