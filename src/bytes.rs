//! Little-endian integer encoding over byte sequences.
use vstd::prelude::*;

verus! {

/// `256^n`.
pub open spec fn pow256(n: nat) -> nat
    decreases n,
{
    if n == 0 {
        1
    } else {
        256 * pow256((n - 1) as nat)
    }
}

/// The `n` low-order bytes of `v`, least significant first.
pub open spec fn le_bytes(v: nat, n: nat) -> Seq<u8>
    decreases n,
{
    if n == 0 {
        Seq::empty()
    } else {
        seq![(v % 256) as u8] + le_bytes(v / 256, (n - 1) as nat)
    }
}

/// The number whose little-endian bytes are `s`.
pub open spec fn le_value(s: Seq<u8>) -> nat
    decreases s.len(),
{
    if s.len() == 0 {
        0
    } else {
        s[0] as nat + 256 * le_value(s.drop_first())
    }
}

pub proof fn lemma_le_bytes_len(v: nat, n: nat)
    ensures
        le_bytes(v, n).len() == n,
    decreases n,
{
    if n > 0 {
        lemma_le_bytes_len(v / 256, (n - 1) as nat);
    }
}

/// Reading back the bytes of a value that fits gives the value.
pub proof fn lemma_le_round_trip(v: nat, n: nat)
    requires
        v < pow256(n),
    ensures
        le_value(le_bytes(v, n)) == v,
    decreases n,
{
    if n > 0 {
        let s = le_bytes(v, n);
        assert(s.drop_first() =~= le_bytes(v / 256, (n - 1) as nat));
        assert(v / 256 < pow256((n - 1) as nat)) by (nonlinear_arith)
            requires
                v < 256 * pow256((n - 1) as nat),
        ;
        lemma_le_round_trip(v / 256, (n - 1) as nat);
        assert(v == (v % 256) + 256 * (v / 256)) by (nonlinear_arith);
    } else {
        assert(v == 0);
    }
}

/// A sequence of `n` bytes reads as a value below `256^n`.
pub proof fn lemma_le_value_bound(s: Seq<u8>)
    ensures
        le_value(s) < pow256(s.len()),
    decreases s.len(),
{
    if s.len() > 0 {
        lemma_le_value_bound(s.drop_first());
        let r = le_value(s.drop_first());
        let p = pow256((s.len() - 1) as nat);
        assert((s[0] as nat) + 256 * r < 256 * p) by (nonlinear_arith)
            requires
                r < p,
                s[0] < 256,
        ;
    }
}

pub proof fn lemma_pow256_values()
    ensures
        pow256(4) == 0x1_0000_0000,
        pow256(7) == 0x100_0000_0000_0000,
        pow256(8) == 0x1_0000_0000_0000_0000,
{
    reveal_with_fuel(pow256, 9);
}

pub proof fn lemma_pow256_mono(a: nat, b: nat)
    requires
        a <= b,
    ensures
        pow256(a) <= pow256(b),
    decreases b,
{
    if a < b {
        lemma_pow256_mono(a, (b - 1) as nat);
    }
}

/// Reads the `n` bytes at `pos` as a little-endian number.
pub fn read_le(b: &[u8], pos: usize, n: usize) -> (r: u64)
    requires
        n <= 8,
        pos + n <= b@.len(),
    ensures
        r as nat == le_value(b@.subrange(pos as int, pos + n)),
{
    let len = b.len();
    let mut acc: u64 = 0;
    let mut j: usize = n;
    assert(b@.subrange(pos + n, pos + n) =~= Seq::<u8>::empty());
    while j > 0
        invariant
            j <= n,
            n <= 8,
            pos + n <= b@.len(),
            b@.len() == len,
            acc as nat == le_value(b@.subrange(pos + j, pos + n)),
        decreases j,
    {
        proof {
            lemma_le_value_bound(b@.subrange(pos + j, pos + n));
            lemma_pow256_mono((n - j) as nat, 7);
            lemma_pow256_values();
            assert(b@.subrange(pos + j, pos + n).len() == n - j);
            assert(acc < 0x100_0000_0000_0000);
            assert(acc * 256 + 255 < 0x1_0000_0000_0000_0000) by (nonlinear_arith)
                requires
                    acc < 0x100_0000_0000_0000,
            ;
        }
        j = j - 1;
        let ghost sub = b@.subrange(pos + j, pos + n);
        assert(sub.drop_first() =~= b@.subrange(pos + j + 1, pos + n));
        assert(sub[0] == b@[pos + j]);
        acc = acc * 256 + b[pos + j] as u64;
    }
    acc
}

/// The four bytes of a `u32`, least significant first.
pub open spec fn u32_le(v: u32) -> Seq<u8> {
    le_bytes(v as nat, 4)
}

/// The eight bytes of a `u64`, least significant first.
pub open spec fn u64_le(v: u64) -> Seq<u8> {
    le_bytes(v as nat, 8)
}

/// The number of bytes in a `usize` on the target.
pub open spec fn usize_width() -> nat {
    (usize::BITS / 8) as nat
}

/// The bytes of a pointer-sized value: as many as a `usize` has on the target,
/// least significant first.
pub open spec fn usize_le(v: usize) -> Seq<u8> {
    le_bytes(v as nat, usize_width())
}

/// A `usize` has four or eight bytes, and every value below `256^width` fits.
pub proof fn lemma_usize_width()
    ensures
        usize_width() == 4 || usize_width() == 8,
        pow256(usize_width()) == usize::MAX + 1,
{
    lemma_pow256_values();
}

/// The number of bytes in a `usize`, at run time.
pub fn usize_bytes() -> (r: usize)
    ensures
        r as nat == usize_width(),
{
    broadcast use vstd::layout::layout_of_primitives;

    core::mem::size_of::<usize>()
}

/// Appends the `n` low-order bytes of `v` to `out`.
pub fn push_le(out: &mut Vec<u8>, v: u64, n: usize)
    requires
        n <= 8,
    ensures
        final(out)@ == old(out)@ + le_bytes(v as nat, n as nat),
{
    let ghost start = old(out)@;
    let mut x: u64 = v;
    let mut i: usize = 0;
    while i < n
        invariant
            i <= n,
            out@.len() == start.len() + i,
            out@ + le_bytes(x as nat, (n - i) as nat) =~= start + le_bytes(v as nat, n as nat),
        decreases n - i,
    {
        let ghost before = out@;
        assert(le_bytes(x as nat, (n - i) as nat) =~= seq![(x % 256) as u8] + le_bytes(
            (x / 256) as nat,
            (n - i - 1) as nat,
        ));
        out.push((x % 256) as u8);
        assert(out@ + le_bytes((x / 256) as nat, (n - i - 1) as nat) =~= before + le_bytes(
            x as nat,
            (n - i) as nat,
        ));
        x = x / 256;
        i = i + 1;
    }
    assert(le_bytes(x as nat, 0) =~= Seq::<u8>::empty());
}

} // verus!

