//! Big-endian byte strings for fixed-width unsigned values.
//!
//! A value `v` written into `n` bytes carries the digits of `v` base 256,
//! most significant first; only the low `n` bytes of `v` are kept.

use vstd::prelude::*;
use vstd::arithmetic::div_mod::{lemma_mod_breakdown, lemma_mod_mod, lemma_small_mod};

verus! {

/// 256 to the power `n`: the number of distinct `n`-byte strings.
pub open spec fn pow256(n: nat) -> nat
    decreases n,
{
    if n == 0 {
        1
    } else {
        256 * pow256((n - 1) as nat)
    }
}

/// The unsigned value that a big-endian byte string denotes.
pub open spec fn be_val(s: Seq<u8>) -> nat
    decreases s.len(),
{
    if s.len() == 0 {
        0
    } else {
        be_val(s.drop_last()) * 256 + s.last() as nat
    }
}

/// The `n`-byte big-endian encoding of `v` (the low `n` base-256 digits).
pub open spec fn be_bytes(v: nat, n: nat) -> Seq<u8>
    decreases n,
{
    if n == 0 {
        Seq::empty()
    } else {
        be_bytes(v / 256, (n - 1) as nat).push((v % 256) as u8)
    }
}

pub proof fn lemma_pow256_pos(n: nat)
    ensures
        pow256(n) >= 1,
    decreases n,
{
    if n > 0 {
        lemma_pow256_pos((n - 1) as nat);
    }
}

pub proof fn lemma_pow256_increases(m: nat, n: nat)
    requires
        m <= n,
    ensures
        pow256(m) <= pow256(n),
    decreases n,
{
    if m < n {
        lemma_pow256_increases(m, (n - 1) as nat);
        lemma_pow256_pos((n - 1) as nat);
    }
}

pub proof fn lemma_pow256_adds(m: nat, n: nat)
    ensures
        pow256(m + n) == pow256(m) * pow256(n),
    decreases m,
{
    if m == 0 {
        assert(pow256(0 + n) == 1 * pow256(n)) by {
            vstd::arithmetic::mul::lemma_mul_basics(pow256(n) as int);
        };
    } else {
        lemma_pow256_adds((m - 1) as nat, n);
        assert(256 * (pow256((m - 1) as nat) * pow256(n)) == (256 * pow256((m - 1) as nat))
            * pow256(n)) by {
            vstd::arithmetic::mul::lemma_mul_is_associative(
                256,
                pow256((m - 1) as nat) as int,
                pow256(n) as int,
            );
        };
    }
}

pub proof fn lemma_be_bytes_len(v: nat, n: nat)
    ensures
        be_bytes(v, n).len() == n,
    decreases n,
{
    if n > 0 {
        lemma_be_bytes_len(v / 256, (n - 1) as nat);
    }
}

pub proof fn lemma_be_val_bound(s: Seq<u8>)
    ensures
        be_val(s) < pow256(s.len()),
    decreases s.len(),
{
    if s.len() > 0 {
        lemma_be_val_bound(s.drop_last());
    }
}

/// Reading back an encoding gives the value modulo the width's range.
pub proof fn lemma_be_val_of_be_bytes(v: nat, n: nat)
    ensures
        be_val(be_bytes(v, n)) == v % pow256(n),
    decreases n,
{
    if n == 0 {
        lemma_small_mod(0, 1);
        assert(v % pow256(0) == v % 1) by {
            assert(pow256(0) == 1);
        };
        assert(v as int % 1int == 0) by {
            lemma_mod_breakdown(v as int, 1int, 1int);
        };
    } else {
        let tail = be_bytes(v / 256, (n - 1) as nat);
        lemma_be_bytes_len(v / 256, (n - 1) as nat);
        assert(be_bytes(v, n).drop_last() =~= tail);
        assert(be_bytes(v, n).last() == (v % 256) as u8);
        lemma_be_val_of_be_bytes(v / 256, (n - 1) as nat);
        lemma_pow256_pos((n - 1) as nat);
        lemma_mod_breakdown(v as int, 256int, pow256((n - 1) as nat) as int);
        assert(be_val(be_bytes(v, n)) == ((v / 256) % pow256((n - 1) as nat)) * 256 + v % 256);
        assert(pow256(n) == 256 * pow256((n - 1) as nat));
    }
}

/// An encoding that fits its width reads back exactly.
pub proof fn lemma_be_roundtrip(v: nat, n: nat)
    requires
        v < pow256(n),
    ensures
        be_val(be_bytes(v, n)) == v,
{
    lemma_be_val_of_be_bytes(v, n);
    lemma_small_mod(v, pow256(n));
}

/// The encoding depends on the value only modulo the width's range.
pub proof fn lemma_be_bytes_mod(v: nat, n: nat)
    ensures
        be_bytes(v % pow256(n), n) == be_bytes(v, n),
    decreases n,
{
    if n > 0 {
        let p = pow256((n - 1) as nat);
        lemma_pow256_pos((n - 1) as nat);
        lemma_mod_breakdown(v as int, 256int, p as int);
        // v % (256 * p) == 256 * ((v / 256) % p) + v % 256
        let r = (v % pow256(n)) as int;
        assert(r == 256 * ((v as int / 256) % (p as int)) + v as int % 256);
        assert(r % 256 == v as int % 256 && r / 256 == (v as int / 256) % (p as int)) by {
            vstd::arithmetic::div_mod::lemma_fundamental_div_mod_converse(
                r,
                256,
                (v as int / 256) % (p as int),
                v as int % 256,
            );
        };
        lemma_be_bytes_mod((v / 256) % p, (n - 1) as nat);
        lemma_be_bytes_mod(v / 256, (n - 1) as nat);
        assert(be_bytes((v % pow256(n)) / 256, (n - 1) as nat) =~= be_bytes(
            v / 256,
            (n - 1) as nat,
        ));
    }
}

/// Writes the `n`-byte big-endian encoding of `v`, low `n` digits of `v`.
pub fn be_bytes_exec(v: u64, n: usize) -> (r: Vec<u8>)
    ensures
        r@ == be_bytes(v as nat, n as nat),
        r@.len() == n,
    decreases n,
{
    proof {
        lemma_be_bytes_len(v as nat, n as nat);
    }
    if n == 0 {
        Vec::new()
    } else {
        let mut r = be_bytes_exec(v / 256, n - 1);
        r.push((v % 256) as u8);
        proof {
            assert(r@ =~= be_bytes(v as nat, n as nat));
        }
        r
    }
}

/// Reads a big-endian byte string of at most 8 bytes as a `u64`.
pub fn be_val_exec(s: &[u8]) -> (r: u64)
    requires
        s@.len() <= 8,
    ensures
        r as nat == be_val(s@),
{
    let mut acc: u64 = 0;
    let mut i: usize = 0;
    while i < s.len()
        invariant
            i <= s@.len() <= 8,
            acc as nat == be_val(s@.take(i as int)),
        decreases s@.len() - i,
    {
        proof {
            lemma_be_val_bound(s@.take(i as int));
            lemma_pow256_increases(i as nat, 7);
            reveal_with_fuel(pow256, 8);
            assert(pow256(7) == 0x100000000000000);
            assert(s@.take(i + 1).drop_last() =~= s@.take(i as int));
            assert(s@.take(i + 1).last() == s@[i as int]);
        }
        acc = acc * 256 + (s[i] as u64);
        i += 1;
    }
    proof {
        assert(s@.take(s@.len() as int) =~= s@);
    }
    acc
}

} // verus!
