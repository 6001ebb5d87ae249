//! Unsigned integers read from and written to byte sequences in either
//! byte order.
use vstd::prelude::*;
use crate::types::ByteOrder;

verus! {

/// `256` to the power `n`.
pub open spec fn pow256(n: nat) -> nat
    decreases n,
{
    if n == 0 {
        1
    } else {
        256 * pow256((n - 1) as nat)
    }
}

/// The value of `s` read with the least significant byte first.
pub open spec fn le_value(s: Seq<u8>) -> nat
    decreases s.len(),
{
    if s.len() == 0 {
        0
    } else {
        s[0] as nat + 256 * le_value(s.drop_first())
    }
}

/// The value of `s` read with the most significant byte first.
pub open spec fn be_value(s: Seq<u8>) -> nat
    decreases s.len(),
{
    if s.len() == 0 {
        0
    } else {
        be_value(s.drop_last()) * 256 + s.last() as nat
    }
}

/// The value of `s` in byte order `o`.
pub open spec fn value_in(o: ByteOrder, s: Seq<u8>) -> nat {
    match o {
        ByteOrder::LE => le_value(s),
        ByteOrder::BE => be_value(s),
    }
}

/// The `n` low bytes of `v`, least significant first.
pub open spec fn le_bytes(v: nat, n: nat) -> Seq<u8>
    decreases n,
{
    if n == 0 {
        seq![]
    } else {
        seq![(v % 256) as u8] + le_bytes(v / 256, (n - 1) as nat)
    }
}

/// The `n` low bytes of `v`, most significant first.
pub open spec fn be_bytes(v: nat, n: nat) -> Seq<u8>
    decreases n,
{
    if n == 0 {
        seq![]
    } else {
        be_bytes(v / 256, (n - 1) as nat).push((v % 256) as u8)
    }
}

/// The `n` low bytes of `v` in byte order `o`.
pub open spec fn bytes_in(o: ByteOrder, v: nat, n: nat) -> Seq<u8> {
    match o {
        ByteOrder::LE => le_bytes(v, n),
        ByteOrder::BE => be_bytes(v, n),
    }
}

pub proof fn lemma_pow256_pos(n: nat)
    ensures
        pow256(n) > 0,
    decreases n,
{
    if n > 0 {
        lemma_pow256_pos((n - 1) as nat);
    }
}

pub proof fn lemma_le_bytes_len(v: nat, n: nat)
    ensures
        le_bytes(v, n).len() == n,
    decreases n,
{
    if n > 0 {
        lemma_le_bytes_len(v / 256, (n - 1) as nat);
    }
}

pub proof fn lemma_be_bytes_len(v: nat, n: nat)
    ensures
        be_bytes(v, n).len() == n,
    decreases n,
{
    if n > 0 {
        lemma_be_bytes_len(v / 256, (n - 1) as nat);
    }
}

proof fn lemma_mod_step(v: nat, m: nat)
    requires
        m > 0,
    ensures
        v % (256 * m) == v % 256 + 256 * ((v / 256) % m),
{
    vstd::arithmetic::div_mod::lemma_mod_breakdown(v as int, 256, m as int);
}

/// Reading back the `n` low bytes of `v` gives `v` modulo `256^n`.
pub proof fn lemma_le_round_trip(v: nat, n: nat)
    ensures
        le_value(le_bytes(v, n)) == v % pow256(n),
    decreases n,
{
    if n == 0 {
    } else {
        let rest = le_bytes(v / 256, (n - 1) as nat);
        lemma_le_round_trip(v / 256, (n - 1) as nat);
        assert(le_bytes(v, n).drop_first() =~= rest);
        lemma_pow256_pos((n - 1) as nat);
        lemma_mod_step(v, pow256((n - 1) as nat));
    }
}

/// Reading back the `n` low bytes of `v` gives `v` modulo `256^n`.
pub proof fn lemma_be_round_trip(v: nat, n: nat)
    ensures
        be_value(be_bytes(v, n)) == v % pow256(n),
    decreases n,
{
    if n == 0 {
    } else {
        let rest = be_bytes(v / 256, (n - 1) as nat);
        lemma_be_round_trip(v / 256, (n - 1) as nat);
        assert(be_bytes(v, n).drop_last() =~= rest);
        lemma_pow256_pos((n - 1) as nat);
        lemma_mod_step(v, pow256((n - 1) as nat));
    }
}

/// Bytes written in either order read back to the value they came from.
pub proof fn lemma_round_trip(o: ByteOrder, v: nat, n: nat)
    requires
        v < pow256(n),
    ensures
        bytes_in(o, v, n).len() == n,
        value_in(o, bytes_in(o, v, n)) == v,
{
    lemma_le_bytes_len(v, n);
    lemma_be_bytes_len(v, n);
    lemma_le_round_trip(v, n);
    lemma_be_round_trip(v, n);
    vstd::arithmetic::div_mod::lemma_small_mod(v, pow256(n));
}

pub proof fn lemma_pow256_8()
    ensures
        pow256(8) == 0x1_0000_0000_0000_0000,
{
    reveal_with_fuel(pow256, 9);
}

proof fn lemma_pow256_mono(a: nat, b: nat)
    requires
        a <= b,
    ensures
        pow256(a) <= pow256(b),
    decreases b,
{
    if a < b {
        lemma_pow256_mono(a, (b - 1) as nat);
        lemma_pow256_pos((b - 1) as nat);
    }
}

/// Reads `width` bytes of `s` from `start` as an unsigned integer in order `o`.
pub fn read_uint(s: &[u8], start: usize, width: usize, o: ByteOrder) -> (r: u64)
    requires
        width <= 8,
        start + width <= s@.len(),
    ensures
        r as nat == value_in(o, s@.subrange(start as int, start + width)),
{
    proof {
        lemma_pow256_8();
        lemma_pow256_mono(width as nat, 8);
    }
    let n = s.len();
    let mut v: u64 = 0;
    match o {
        ByteOrder::BE => {
            let mut i: usize = 0;
            while i < width
                invariant
                    i <= width,
                    width <= 8,
                    start + width <= s@.len(),
                    n == s@.len(),
                    pow256(width as nat) <= 0x1_0000_0000_0000_0000,
                    v as nat == be_value(s@.subrange(start as int, start + i)),
                    (v as nat) < pow256(i as nat),
                decreases width - i,
            {
                proof {
                    let next = s@.subrange(start as int, start + i + 1);
                    assert(next.drop_last() =~= s@.subrange(start as int, start + i));
                    lemma_pow256_mono((i + 1) as nat, width as nat);
                    let p = pow256(i as nat);
                    let b = s@[start + i] as nat;
                    assert((v as nat) * 256 + b < p * 256) by (nonlinear_arith)
                        requires
                            (v as nat) < p,
                            b < 256,
                    ;
                }
                v = v * 256 + s[start + i] as u64;
                i = i + 1;
            }
        },
        ByteOrder::LE => {
            let mut i: usize = width;
            while i > 0
                invariant
                    i <= width,
                    width <= 8,
                    start + width <= s@.len(),
                    n == s@.len(),
                    pow256(width as nat) <= 0x1_0000_0000_0000_0000,
                    v as nat == le_value(s@.subrange(start + i, start + width)),
                    (v as nat) < pow256((width - i) as nat),
                decreases i,
            {
                proof {
                    let next = s@.subrange(start + i - 1, start + width);
                    assert(next.drop_first() =~= s@.subrange(start + i, start + width));
                    lemma_pow256_mono((width - i + 1) as nat, width as nat);
                    let p = pow256((width - i) as nat);
                    let b = s@[start + i - 1] as nat;
                    assert((v as nat) * 256 + b < p * 256) by (nonlinear_arith)
                        requires
                            (v as nat) < p,
                            b < 256,
                    ;
                }
                v = v * 256 + s[start + i - 1] as u64;
                i = i - 1;
            }
        },
    }
    proof {
        assert(s@.subrange(start as int, start + width) =~= s@.subrange(start + 0, start + width));
    }
    v
}

} // verus!
