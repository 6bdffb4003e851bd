//! Unsigned integers read from and written to byte sequences in either order.

use vstd::prelude::*;

verus! {

/// `256` raised to `n`.
pub open spec fn pow256(n: nat) -> nat
    decreases n,
{
    if n == 0 {
        1
    } else {
        256 * pow256((n - 1) as nat)
    }
}

/// The unsigned number whose little-endian bytes are `s`.
pub open spec fn le_value(s: Seq<u8>) -> nat
    decreases s.len(),
{
    if s.len() == 0 {
        0
    } else {
        (s[0] + 256 * le_value(s.drop_first())) as nat
    }
}

/// The unsigned number whose big-endian bytes are `s`.
pub open spec fn be_value(s: Seq<u8>) -> nat
    decreases s.len(),
{
    if s.len() == 0 {
        0
    } else {
        (be_value(s.drop_last()) * 256 + s.last()) as nat
    }
}

/// The unsigned number held in `s`, in the given byte order.
pub open spec fn unsigned_value(s: Seq<u8>, big_endian: bool) -> nat {
    if big_endian {
        be_value(s)
    } else {
        le_value(s)
    }
}

/// The `n` low bytes of `v`, least significant first.
pub open spec fn le_bytes(v: nat, n: nat) -> Seq<u8>
    decreases n,
{
    if n == 0 {
        seq![]
    } else {
        seq![(v % 256) as u8] + le_bytes(v / 256, (n - 1) as nat)
    }
}

pub proof fn lemma_pow256_8()
    ensures
        pow256(1) == 0x100,
        pow256(2) == 0x1_0000,
        pow256(4) == 0x1_0000_0000,
        pow256(7) == 0x100_0000_0000_0000,
        pow256(8) == 0x1_0000_0000_0000_0000,
{
    reveal_with_fuel(pow256, 9);
}

pub proof fn lemma_pow256_mono(a: nat, b: nat)
    requires
        a <= b,
    ensures
        pow256(a) <= pow256(b),
    decreases b,
{
    if a < b {
        lemma_pow256_mono(a, (b - 1) as nat);
    }
}

pub proof fn lemma_le_value_bound(s: Seq<u8>)
    ensures
        le_value(s) < pow256(s.len()),
    decreases s.len(),
{
    if s.len() > 0 {
        lemma_le_value_bound(s.drop_first());
    }
}

pub proof fn lemma_be_value_bound(s: Seq<u8>)
    ensures
        be_value(s) < pow256(s.len()),
    decreases s.len(),
{
    if s.len() > 0 {
        lemma_be_value_bound(s.drop_last());
        assert(pow256(s.len()) == pow256((s.len() - 1) as nat) * 256);
    }
}

/// Reading bytes in big-endian order is reading their reversal in
/// little-endian order.
pub proof fn lemma_be_is_reversed_le(s: Seq<u8>)
    ensures
        be_value(s) == le_value(s.reverse()),
    decreases s.len(),
{
    if s.len() > 0 {
        lemma_be_is_reversed_le(s.drop_last());
        assert(s.reverse().drop_first() =~= s.drop_last().reverse());
    }
}

pub proof fn lemma_le_bytes_len(v: nat, n: nat)
    ensures
        le_bytes(v, n).len() == n,
    decreases n,
{
    if n > 0 {
        lemma_le_bytes_len(v / 256, (n - 1) as nat);
    }
}

/// Writing `n` bytes of a number below `256^n` and reading them back gives
/// the number.
pub proof fn lemma_le_bytes_value(v: nat, n: nat)
    requires
        v < pow256(n),
    ensures
        le_bytes(v, n).len() == n,
        le_value(le_bytes(v, n)) == v,
    decreases n,
{
    if n > 0 {
        let t = le_bytes(v / 256, (n - 1) as nat);
        lemma_le_bytes_value(v / 256, (n - 1) as nat);
        assert(le_bytes(v, n).drop_first() =~= t);
    }
}

/// The unsigned number in `data[at .. at + width]`, in the given byte order.
pub fn read_unsigned(data: &[u8], at: usize, width: usize, big_endian: bool) -> (r: u64)
    requires
        width <= 8,
        at + width <= data@.len(),
    ensures
        r == unsigned_value(data@.subrange(at as int, at + width), big_endian),
{
    let ghost s = data@.subrange(at as int, at + width);
    let n = data.len();
    let mut acc: u64 = 0;
    if big_endian {
        let mut i: usize = 0;
        while i < width
            invariant
                i <= width <= 8,
                at + width <= n,
                n == data@.len(),
                s == data@.subrange(at as int, at + width),
                acc == be_value(s.subrange(0, i as int)),
            decreases width - i,
        {
            let ghost t = s.subrange(0, i + 1);
            proof {
                lemma_pow256_8();
                assert(t.drop_last() =~= s.subrange(0, i as int));
                lemma_be_value_bound(s.subrange(0, i as int));
                lemma_pow256_mono(i as nat, 7);
                assert(acc < 0x100_0000_0000_0000);
                assert(at + i < data@.len());
            }
            acc = acc * 256 + data[at + i] as u64;
            i = i + 1;
        }
        assert(s.subrange(0, width as int) =~= s);
    } else {
        let mut i: usize = width;
        while i > 0
            invariant
                i <= width <= 8,
                at + width <= n,
                n == data@.len(),
                s == data@.subrange(at as int, at + width),
                acc == le_value(s.subrange(i as int, width as int)),
            decreases i,
        {
            let ghost t = s.subrange(i - 1, width as int);
            proof {
                lemma_pow256_8();
                assert(t.drop_first() =~= s.subrange(i as int, width as int));
                lemma_le_value_bound(s.subrange(i as int, width as int));
                lemma_pow256_mono((width - i) as nat, 7);
                assert(acc < 0x100_0000_0000_0000);
                assert(at + i - 1 < data@.len());
            }
            acc = data[at + i - 1] as u64 + 256 * acc;
            i = i - 1;
        }
        assert(s.subrange(0, width as int) =~= s);
    }
    acc
}

} // verus!
