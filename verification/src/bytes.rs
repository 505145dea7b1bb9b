//! Big-endian (network order) integers as byte sequences.

use vstd::prelude::*;

verus! {

/// `256^n`.
pub open spec fn pow256(n: nat) -> nat
    decreases n,
{
    if n == 0 {
        1
    } else {
        256 * pow256((n - 1) as nat)
    }
}

/// The number that `s` spells in base 256, most significant byte first.
pub open spec fn be_value(s: Seq<u8>) -> nat
    decreases s.len(),
{
    if s.len() == 0 {
        0
    } else {
        be_value(s.drop_last()) * 256 + s.last() as nat
    }
}

/// The `n` lowest base-256 digits of `v`, most significant first.
pub open spec fn be_bytes(v: nat, n: nat) -> Seq<u8>
    decreases n,
{
    if n == 0 {
        Seq::empty()
    } else {
        be_bytes(v / 256, (n - 1) as nat).push((v % 256) as u8)
    }
}

/// The powers of 256 that the frame lengths meet.
pub proof fn lemma_pow256_values()
    ensures
        pow256(0) == 1,
        pow256(1) == 0x100,
        pow256(2) == 0x1_0000,
        pow256(4) == 0x1_0000_0000,
        pow256(8) == 0x1_0000_0000_0000_0000,
{
    reveal_with_fuel(pow256, 9);
}

/// `n` digits are `n` bytes.
pub proof fn lemma_be_bytes_len(v: nat, n: nat)
    ensures
        be_bytes(v, n).len() == n,
    decreases n,
{
    if n > 0 {
        lemma_be_bytes_len(v / 256, (n - 1) as nat);
    }
}

/// Reading back the digits of a number that fits gives the number.
pub proof fn lemma_be_value_of_bytes(v: nat, n: nat)
    requires
        v < pow256(n),
    ensures
        be_value(be_bytes(v, n)) == v,
    decreases n,
{
    if n > 0 {
        let head = be_bytes(v / 256, (n - 1) as nat);
        let low = (v % 256) as u8;
        lemma_be_value_of_bytes(v / 256, (n - 1) as nat);
        assert(head.push(low).drop_last() =~= head);
        assert(head.push(low).last() == low);
    }
}

/// Appends the `n` lowest base-256 digits of `v` to `out`, most significant
/// first.
pub fn push_be(out: &mut Vec<u8>, v: u64, n: usize)
    ensures
        final(out)@ == old(out)@ + be_bytes(v as nat, n as nat),
    decreases n,
{
    if n > 0 {
        push_be(out, v / 256, n - 1);
        out.push((v % 256) as u8);
        proof {
            let digits = be_bytes(v as nat, n as nat);
            let head = be_bytes((v / 256) as nat, (n - 1) as nat);
            assert(digits == head.push((v % 256) as u8));
            assert(out@ =~= old(out)@ + digits);
        }
    } else {
        assert(out@ =~= old(out)@ + be_bytes(v as nat, 0));
    }
}

/// Reads the big-endian number held in `data[at..at + n]`, for `n` up to 8.
pub fn read_be(data: &[u8], at: usize, n: usize) -> (v: u64)
    requires
        n <= 8,
        at + n <= data.len(),
    ensures
        v == be_value(data@.subrange(at as int, at + n)),
{
    let mut v: u64 = 0;
    let mut i: usize = 0;
    proof {
        lemma_pow256_values();
        assert(data@.subrange(at as int, at as int).len() == 0);
    }
    while i < n
        invariant
            i <= n <= 8,
            at + n <= data.len(),
            v == be_value(data@.subrange(at as int, at + i)),
            v < pow256(i as nat),
        decreases n - i,
    {
        proof {
            let next = data@.subrange(at as int, at + i + 1);
            assert(next.drop_last() =~= data@.subrange(at as int, at + i));
            assert(next.last() == data@[at + i]);
            lemma_pow256_chain(i as nat);
        }
        v = v * 256 + data[at + i] as u64;
        i = i + 1;
    }
    v
}

/// Below eight digits, one more digit still fits in 64 bits.
proof fn lemma_pow256_chain(i: nat)
    requires
        i < 8,
    ensures
        pow256(i + 1) == 256 * pow256(i),
        pow256(i + 1) <= 0x1_0000_0000_0000_0000,
{
    reveal_with_fuel(pow256, 9);
}

} // verus!
