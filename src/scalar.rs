use vstd::prelude::*;
use crate::ctx::Endian;

verus! {

/// 256 to the power `n`: one past the largest value that `n` bytes hold.
pub open spec fn pow256(n: nat) -> nat
    decreases n,
{
    if n == 0 {
        1
    } else {
        256 * pow256((n - 1) as nat)
    }
}

/// The `n` lowest bytes of `v`, least significant first.
pub open spec fn le_bytes(v: nat, n: nat) -> Seq<u8>
    decreases n,
{
    if n == 0 {
        seq![]
    } else {
        seq![(v % 256) as u8] + le_bytes(v / 256, (n - 1) as nat)
    }
}

/// The `n` lowest bytes of `v`, most significant first.
pub open spec fn be_bytes(v: nat, n: nat) -> Seq<u8>
    decreases n,
{
    if n == 0 {
        seq![]
    } else {
        be_bytes(v / 256, (n - 1) as nat).push((v % 256) as u8)
    }
}

/// The number that bytes `s` spell, least significant first.
pub open spec fn le_value(s: Seq<u8>) -> nat
    decreases s.len(),
{
    if s.len() == 0 {
        0
    } else {
        s[0] as nat + 256 * le_value(s.drop_first())
    }
}

/// The number that bytes `s` spell, most significant first.
pub open spec fn be_value(s: Seq<u8>) -> nat
    decreases s.len(),
{
    if s.len() == 0 {
        0
    } else {
        be_value(s.drop_last()) * 256 + s.last() as nat
    }
}

/// The `n` bytes that write `v` in byte order `e`.
pub open spec fn int_bytes(v: nat, n: nat, e: Endian) -> Seq<u8> {
    match e {
        Endian::Little => le_bytes(v, n),
        Endian::Big => be_bytes(v, n),
    }
}

/// The number that bytes `s` spell in byte order `e`.
pub open spec fn int_value(s: Seq<u8>, e: Endian) -> nat {
    match e {
        Endian::Little => le_value(s),
        Endian::Big => be_value(s),
    }
}

pub proof fn lemma_pow256_positive(n: nat)
    ensures
        pow256(n) > 0,
    decreases n,
{
    if n > 0 {
        lemma_pow256_positive((n - 1) as nat);
    }
}

pub proof fn lemma_pow256_widths()
    ensures
        pow256(1) == 0x100,
        pow256(2) == 0x10000,
        pow256(4) == 0x1_0000_0000,
        pow256(8) == 0x1_0000_0000_0000_0000,
{
    reveal_with_fuel(pow256, 9);
}

pub proof fn lemma_pow256_monotone(a: nat, b: nat)
    requires
        a <= b,
    ensures
        pow256(a) <= pow256(b),
    decreases b,
{
    if a < b {
        lemma_pow256_monotone(a, (b - 1) as nat);
        lemma_pow256_positive((b - 1) as nat);
    }
}

pub proof fn lemma_int_bytes_len(v: nat, n: nat, e: Endian)
    ensures
        int_bytes(v, n, e).len() == n,
    decreases n,
{
    if n > 0 {
        lemma_int_bytes_len(v / 256, (n - 1) as nat, e);
    }
}

proof fn lemma_div_step(v: nat, p: nat)
    requires
        v < 256 * p,
    ensures
        v / 256 < p,
        v == 256 * (v / 256) + v % 256,
        (v % 256) < 256,
{
    assert(v == 256 * (v / 256) + v % 256) by (nonlinear_arith);
    assert(v / 256 < p) by (nonlinear_arith)
        requires
            v < 256 * p,
            v == 256 * (v / 256) + v % 256,
            v % 256 >= 0,
    ;
}

/// Writing a value that fits in `n` bytes and reading it back gives it again.
pub proof fn lemma_int_round_trip(v: nat, n: nat, e: Endian)
    requires
        v < pow256(n),
    ensures
        int_value(int_bytes(v, n, e), e) == v,
    decreases n,
{
    if n > 0 {
        lemma_div_step(v, pow256((n - 1) as nat));
        lemma_int_round_trip(v / 256, (n - 1) as nat, e);
        match e {
            Endian::Little => {
                let s = le_bytes(v, n);
                assert(s.drop_first() =~= le_bytes(v / 256, (n - 1) as nat));
            },
            Endian::Big => {
                let s = be_bytes(v, n);
                assert(s.drop_last() =~= be_bytes(v / 256, (n - 1) as nat));
            },
        }
    }
}

/// What `n` bytes spell is below 256 to the power `n`.
pub proof fn lemma_int_value_bound(s: Seq<u8>, e: Endian)
    ensures
        int_value(s, e) < pow256(s.len()),
    decreases s.len(),
{
    if s.len() > 0 {
        let p = pow256((s.len() - 1) as nat);
        match e {
            Endian::Little => {
                lemma_int_value_bound(s.drop_first(), e);
                let x = le_value(s.drop_first());
                let b = s[0] as nat;
                assert(b + 256 * x < 256 * p) by (nonlinear_arith)
                    requires
                        x < p,
                        b < 256,
                ;
            },
            Endian::Big => {
                lemma_int_value_bound(s.drop_last(), e);
                let x = be_value(s.drop_last());
                let b = s.last() as nat;
                assert(x * 256 + b < 256 * p) by (nonlinear_arith)
                    requires
                        x < p,
                        b < 256,
                ;
            },
        }
    }
}

/// Whether `v` fits in `w` bytes, for the integer widths of the wire.
pub fn fits_width(v: u64, w: usize) -> (r: bool)
    requires
        w == 1 || w == 2 || w == 4 || w == 8,
    ensures
        r == (v < pow256(w as nat)),
{
    proof {
        lemma_pow256_widths();
    }
    if w == 1 {
        v < 0x100
    } else if w == 2 {
        v < 0x10000
    } else if w == 4 {
        v < 0x1_0000_0000
    } else {
        true
    }
}

/// Appends the `w` lowest bytes of `v` in byte order `e`.
pub fn put_uint(out: &mut Vec<u8>, v: u64, w: usize, e: Endian)
    ensures
        final(out)@ == old(out)@ + int_bytes(v as nat, w as nat, e),
    decreases w,
{
    if w == 0 {
        assert(final(out)@ =~= old(out)@ + int_bytes(v as nat, w as nat, e));
        return ;
    }
    match e {
        Endian::Little => {
            out.push((v % 256) as u8);
            put_uint(out, v / 256, w - 1, e);
            assert(final(out)@ =~= old(out)@ + int_bytes(v as nat, w as nat, e));
        },
        Endian::Big => {
            put_uint(out, v / 256, w - 1, e);
            out.push((v % 256) as u8);
            assert(final(out)@ =~= old(out)@ + int_bytes(v as nat, w as nat, e));
        },
    }
}

/// Reads the number that `w` bytes at `pos` spell in byte order `e`.
pub fn get_uint(buf: &[u8], pos: usize, w: usize, e: Endian) -> (r: u64)
    requires
        w <= 8,
        pos + w <= buf@.len(),
    ensures
        r as nat == int_value(buf@.subrange(pos as int, pos + w), e),
{
    proof {
        lemma_pow256_widths();
        lemma_pow256_monotone(w as nat, 8);
    }
    match e {
        Endian::Little => get_le(buf, pos, w),
        Endian::Big => {
            let mut acc: u64 = 0;
            let mut i: usize = 0;
            while i < w
                invariant
                    i <= w,
                    w <= 8,
                    pos + w <= buf@.len(),
                    acc as nat == be_value(buf@.subrange(pos as int, pos + i)),
                decreases w - i,
            {
                let ghost s = buf@.subrange(pos as int, pos + i + 1);
                proof {
                    assert(s.drop_last() =~= buf@.subrange(pos as int, pos + i));
                    lemma_int_value_bound(s, Endian::Big);
                    lemma_pow256_monotone((i + 1) as nat, 8);
                    lemma_pow256_widths();
                    assert(s.last() == buf@[pos + i]);
                    assert(be_value(s) == acc * 256 + buf@[pos + i] as nat);
                    assert(buf@.len() == buf.len());
                    assert(s.len() == i + 1);
                    assert(int_value(s, Endian::Big) == be_value(s));
                    assert(be_value(s) < pow256((i + 1) as nat));
                    assert(pow256((i + 1) as nat) <= 0x1_0000_0000_0000_0000);
                    assert(acc * 256 + buf@[pos + i] < 0x1_0000_0000_0000_0000);
                }
                acc = acc * 256 + buf[pos + i] as u64;
                i = i + 1;
            }
            acc
        },
    }
}

fn get_le(buf: &[u8], pos: usize, w: usize) -> (r: u64)
    requires
        w <= 8,
        pos + w <= buf@.len(),
    ensures
        r as nat == le_value(buf@.subrange(pos as int, pos + w)),
    decreases w,
{
    if w == 0 {
        return 0;
    }
    assert(buf@.len() == buf.len());
    let rest = get_le(buf, pos + 1, w - 1);
    let ghost s = buf@.subrange(pos as int, pos + w);
    proof {
        assert(s.drop_first() =~= buf@.subrange(pos + 1, pos + w));
        lemma_int_value_bound(s, Endian::Little);
        lemma_pow256_monotone(w as nat, 8);
        lemma_pow256_widths();
    }
    buf[pos] as u64 + 256 * rest
}

} // verus!
