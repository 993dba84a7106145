//! Little-endian integers.
use vstd::prelude::*;
use vstd::slice::slice_subrange;

verus! {

/// 256 to the power `width`: the number of values of `width` bytes.
pub open spec fn pow256(width: nat) -> nat
    decreases width,
{
    if width == 0 {
        1
    } else {
        256 * pow256((width - 1) as nat)
    }
}

/// The `width` low bytes of `n` in two's complement, the lowest first.
pub open spec fn le_bytes(n: int, width: nat) -> Seq<u8>
    decreases width,
{
    if width == 0 {
        Seq::empty()
    } else {
        seq![(n % 256) as u8] + le_bytes(n / 256, (width - 1) as nat)
    }
}

/// The unsigned integer whose bytes are `s`, the lowest first.
pub open spec fn le_value(s: Seq<u8>) -> nat
    decreases s.len(),
{
    if s.len() == 0 {
        0
    } else {
        s[0] as nat + 256 * le_value(s.subrange(1, s.len() as int))
    }
}

/// The two's-complement integer whose bytes are `s`, the lowest first.
pub open spec fn le_signed(s: Seq<u8>) -> int {
    if s.len() > 0 && s.last() >= 128 {
        le_value(s) - pow256(s.len())
    } else {
        le_value(s) as int
    }
}

pub proof fn lemma_pow256_small()
    ensures
        pow256(0) == 1,
        pow256(1) == 0x100,
        pow256(2) == 0x1_0000,
        pow256(4) == 0x1_0000_0000,
        pow256(8) == 0x1_0000_0000_0000_0000,
{
    reveal_with_fuel(pow256, 9);
}

pub proof fn lemma_le_bytes_len(n: int, width: nat)
    ensures
        le_bytes(n, width).len() == width,
    decreases width,
{
    if width > 0 {
        lemma_le_bytes_len(n / 256, (width - 1) as nat);
    }
}

/// Only `n` modulo the number of values matters for the low bytes of `n`.
pub proof fn lemma_le_bytes_wrap(n: int, k: int, width: nat)
    ensures
        le_bytes(n + k * pow256(width), width) == le_bytes(n, width),
    decreases width,
{
    if width > 0 {
        let p = pow256((width - 1) as nat) as int;
        let m = n + k * pow256(width);
        assert(k * (256 * p) == 256 * (k * p)) by (nonlinear_arith);
        assert(m == n + 256 * (k * p));
        assert(m % 256 == n % 256);
        assert(m / 256 == n / 256 + k * p);
        lemma_le_bytes_wrap(n / 256, k, (width - 1) as nat);
    }
}

/// Reading back the `width` low bytes of `n` gives `n` modulo the number of
/// values that they can hold.
pub proof fn lemma_le_round_trip(n: int, width: nat)
    ensures
        le_value(le_bytes(n, width)) == n % (pow256(width) as int),
    decreases width,
{
    let s = le_bytes(n, width);
    lemma_le_bytes_len(n, width);
    if width > 0 {
        let p = pow256((width - 1) as nat) as int;
        lemma_pow256_positive((width - 1) as nat);
        assert(s.subrange(1, s.len() as int) =~= le_bytes(n / 256, (width - 1) as nat));
        lemma_le_round_trip(n / 256, (width - 1) as nat);
        assert(n % (256 * p) == n % 256 + 256 * ((n / 256) % p)) by {
            let a = n / 256;
            let q = a / p;
            let r = n % 256 + 256 * (a % p);
            vstd::arithmetic::div_mod::lemma_fundamental_div_mod(a, p);
            assert(n == 256 * a + n % 256);
            assert(n == q * (256 * p) + r) by (nonlinear_arith)
                requires
                    n == 256 * a + n % 256,
                    a == p * q + a % p,
                    r == n % 256 + 256 * (a % p),
            ;
            assert(0 <= a % p <= p - 1);
            vstd::arithmetic::div_mod::lemma_fundamental_div_mod_converse(n, 256 * p, q, r);
        }
    } else {
        assert(n % 1 == 0);
    }
}

pub proof fn lemma_pow256_positive(width: nat)
    ensures
        pow256(width) > 0,
    decreases width,
{
    if width > 0 {
        lemma_pow256_positive((width - 1) as nat);
    }
}

pub proof fn lemma_le_value_bound(s: Seq<u8>)
    ensures
        le_value(s) < pow256(s.len()),
    decreases s.len(),
{
    if s.len() > 0 {
        lemma_le_value_bound(s.subrange(1, s.len() as int));
    }
}

/// Writing back what was read from bytes gives the same bytes.
pub proof fn lemma_le_write_back(s: Seq<u8>)
    ensures
        le_bytes(le_value(s) as int, s.len()) == s,
    decreases s.len(),
{
    if s.len() > 0 {
        let rest = s.subrange(1, s.len() as int);
        lemma_le_write_back(rest);
        let n = le_value(s) as int;
        assert(n == s[0] as int + 256 * (le_value(rest) as int));
        assert(n % 256 == s[0] as int);
        assert(n / 256 == le_value(rest) as int);
        assert(le_bytes(n, s.len()) =~= seq![s[0]] + rest);
        assert(seq![s[0]] + rest =~= s);
    } else {
        assert(s =~= Seq::<u8>::empty());
    }
}

/// The `width` low bytes of an unsigned integer.
pub fn to_le(n: u64, width: usize) -> (out: Vec<u8>)
    ensures
        out@ == le_bytes(n as int, width as nat),
        out@.len() == width,
    decreases width,
{
    let mut out: Vec<u8> = Vec::new();
    let mut rest: u64 = n;
    assert(out@ + le_bytes(n as int, width as nat) =~= le_bytes(n as int, width as nat));
    while out.len() < width
        invariant
            out@.len() <= width,
            out@ + le_bytes(rest as int, (width - out@.len()) as nat) == le_bytes(
                n as int,
                width as nat,
            ),
        decreases width - out@.len(),
    {
        let ghost before = out@;
        let ghost left = (width - out@.len()) as nat;
        out.push((rest % 256) as u8);
        proof {
            assert(le_bytes(rest as int, left) == seq![(rest % 256) as u8] + le_bytes(
                rest as int / 256,
                (left - 1) as nat,
            ));
            assert(out@ + le_bytes(rest as int / 256, (left - 1) as nat) =~= before + le_bytes(
                rest as int,
                left,
            ));
        }
        rest = rest / 256;
    }
    assert(out@ + Seq::<u8>::empty() =~= out@);
    out
}

/// The `width` low bytes of a signed integer in two's complement.
pub fn to_le_signed(n: i64, width: usize) -> (out: Vec<u8>)
    requires
        width == 1 || width == 2 || width == 4 || width == 8,
    ensures
        out@ == le_bytes(n as int, width as nat),
        out@.len() == width,
{
    if n < 0 {
        let m: u64 = u64::MAX - (-(n + 1)) as u64;
        proof {
            lemma_pow256_small();
            assert(m == n + 0x1_0000_0000_0000_0000);
            if width == 1 {
                lemma_le_bytes_wrap(n as int, 0x100_0000_0000_0000, 1);
            } else if width == 2 {
                lemma_le_bytes_wrap(n as int, 0x1_0000_0000_0000, 2);
            } else if width == 4 {
                lemma_le_bytes_wrap(n as int, 0x1_0000_0000, 4);
            } else {
                lemma_le_bytes_wrap(n as int, 1, 8);
            }
        }
        to_le(m, width)
    } else {
        to_le(n as u64, width)
    }
}

/// The unsigned integer whose bytes are `s`.
pub fn from_le(s: &[u8]) -> (v: u64)
    requires
        s@.len() <= 8,
    ensures
        v == le_value(s@),
    decreases s@.len(),
{
    if s.len() == 0 {
        0
    } else {
        proof {
            lemma_le_value_bound(s@);
            reveal_with_fuel(pow256, 9);
        }
        let rest = slice_subrange(s, 1, s.len());
        let high: u64 = from_le(rest);
        s[0] as u64 + 256 * high
    }
}

/// The two's-complement integer whose bytes are `s`.
pub fn from_le_signed(s: &[u8]) -> (v: i64)
    requires
        s@.len() == 1 || s@.len() == 2 || s@.len() == 4 || s@.len() == 8,
    ensures
        v == le_signed(s@),
{
    let u: u64 = from_le(s);
    proof {
        lemma_pow256_small();
        lemma_le_value_bound(s@);
        lemma_le_value_top(s@);
    }
    if s[s.len() - 1] >= 128 {
        if s.len() == 8 {
            -((u64::MAX - u) as i64) - 1
        } else if s.len() == 4 {
            u as i64 - 0x1_0000_0000
        } else if s.len() == 2 {
            u as i64 - 0x1_0000
        } else {
            u as i64 - 0x100
        }
    } else {
        u as i64
    }
}

/// The top byte decides in which half of the values an integer lies.
pub proof fn lemma_le_value_top(s: Seq<u8>)
    requires
        s.len() > 0,
    ensures
        2 * le_value(s) >= pow256(s.len()) <==> s.last() >= 128,
    decreases s.len(),
{
    let rest = s.subrange(1, s.len() as int);
    let p = pow256((s.len() - 1) as nat);
    assert(le_value(s) == s[0] as nat + 256 * le_value(rest));
    if s.len() == 1 {
        assert(le_value(rest) == 0);
        assert(p == 1);
        assert(s.last() == s[0]);
    } else {
        lemma_le_value_top(rest);
        assert(rest.last() == s.last());
        let q = pow256((s.len() - 2) as nat);
        assert(p == 256 * q);
    }
}

/// A signed integer that fits is read back from its bytes.
pub proof fn lemma_signed_round_trip(v: int, width: nat)
    requires
        width > 0,
        -(pow256(width) as int) <= 2 * v < pow256(width),
    ensures
        le_signed(le_bytes(v, width)) == v,
{
    let b = le_bytes(v, width);
    let p = pow256(width) as int;
    lemma_le_bytes_len(v, width);
    lemma_le_round_trip(v, width);
    lemma_le_value_top(b);
    if v >= 0 {
        assert(v % p == v) by (nonlinear_arith)
            requires
                0 <= v < p,
        ;
    } else {
        assert(v % p == v + p) by (nonlinear_arith)
            requires
                -p <= v < 0,
        ;
    }
}

/// The lowest byte comes first: the byte number `i` weighs 256 to the power of `i`.
pub proof fn byte_weighs_by_its_place(s: Seq<u8>, i: int)
    requires
        0 <= i < s.len(),
    ensures
        le_value(s) == le_value(s.update(i, 0)) + s[i] * vstd::arithmetic::power::pow(
            256,
            i as nat,
        ),
    decreases s.len(),
{
    let rest = s.subrange(1, s.len() as int);
    let cleared = s.update(i, 0);
    let tail = cleared.subrange(1, s.len() as int);
    reveal(vstd::arithmetic::power::pow);
    if i == 0 {
        assert(tail =~= rest);
        assert(vstd::arithmetic::power::pow(256, 0) == 1);
        assert(s[i] * 1 == s[i]);
    } else {
        byte_weighs_by_its_place(rest, i - 1);
        assert(tail =~= rest.update(i - 1, 0));
        let p = vstd::arithmetic::power::pow(256, (i - 1) as nat);
        assert(vstd::arithmetic::power::pow(256, i as nat) == 256 * p);
        assert(256 * (rest[i - 1] * p) == s[i] * (256 * p)) by (nonlinear_arith)
            requires
                rest[i - 1] == s[i],
        ;
    }
}

} // verus!
