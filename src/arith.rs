//! Unsigned integers as byte strings, and the moduli of BN254's fields.
use crate::endian::swap_chunks;
use vstd::arithmetic::div_mod::lemma_fundamental_div_mod_converse;
use vstd::arithmetic::power::pow;
use vstd::prelude::*;

verus! {

/// The number that `s` encodes, least significant byte first.
pub open spec fn le_nat(s: Seq<u8>) -> nat
    decreases s.len(),
{
    if s.len() == 0 {
        0
    } else {
        s[0] as nat + 256 * le_nat(s.drop_first())
    }
}

/// The number that `s` encodes, most significant byte first.
pub open spec fn be_nat(s: Seq<u8>) -> nat
    decreases s.len(),
{
    if s.len() == 0 {
        0
    } else {
        be_nat(s.drop_last()) * 256 + s.last() as nat
    }
}

/// The `n` lowest bytes of `v`, least significant first.
pub open spec fn le_bytes(v: nat, n: nat) -> Seq<u8>
    decreases n,
{
    if n == 0 {
        Seq::empty()
    } else {
        seq![(v % 256) as u8] + le_bytes(v / 256, (n - 1) as nat)
    }
}

/// The modulus of BN254's base field, the field of curve coordinates.
pub open spec fn fq_modulus() -> nat {
    0x30644e72e131a029b85045b68181585d * 0x10000000000000000 * 0x10000000000000000
        + 0x97816a916871ca8d3c208c16d87cfd47
}

/// The modulus of BN254's scalar field, the field of public inputs.
pub open spec fn fr_modulus() -> nat {
    0x30644e72e131a029b85045b68181585d * 0x10000000000000000 * 0x10000000000000000
        + 0x2833e84879b9709143e1f593f0000001
}

/// The base field modulus, least significant byte first.
pub const FQ_MODULUS_LE: [u8; 32] = [
    0x47, 0xfd, 0x7c, 0xd8, 0x16, 0x8c, 0x20, 0x3c, 0x8d, 0xca, 0x71, 0x68, 0x91, 0x6a, 0x81, 0x97,
    0x5d, 0x58, 0x81, 0x81, 0xb6, 0x45, 0x50, 0xb8, 0x29, 0xa0, 0x31, 0xe1, 0x72, 0x4e, 0x64, 0x30,
];

/// The scalar field modulus, least significant byte first.
pub const FR_MODULUS_LE: [u8; 32] = [
    0x01, 0x00, 0x00, 0xf0, 0x93, 0xf5, 0xe1, 0x43, 0x91, 0x70, 0xb9, 0x79, 0x48, 0xe8, 0x33, 0x28,
    0x5d, 0x58, 0x81, 0x81, 0xb6, 0x45, 0x50, 0xb8, 0x29, 0xa0, 0x31, 0xe1, 0x72, 0x4e, 0x64, 0x30,
];

#[verifier::rlimit(100)]
pub proof fn lemma_moduli_bytes()
    ensures
        le_nat(FQ_MODULUS_LE@) == fq_modulus(),
        le_nat(FR_MODULUS_LE@) == fr_modulus(),
{
    reveal_with_fuel(le_nat, 33);
    assert(le_nat(FQ_MODULUS_LE@) == fq_modulus());
    assert(le_nat(FR_MODULUS_LE@) == fr_modulus());
}


/// Peeling the lowest byte off a suffix.
pub proof fn lemma_le_suffix(a: Seq<u8>, i: int)
    requires
        0 < i <= a.len(),
    ensures
        le_nat(a.subrange(i - 1, a.len() as int)) == a[i - 1] as nat + 256 * le_nat(
            a.subrange(i, a.len() as int),
        ),
{
    assert(a.subrange(i - 1, a.len() as int).drop_first() =~= a.subrange(i, a.len() as int));
}

/// Of two numbers of the same width, the one whose top part is smaller is smaller.
pub proof fn lemma_suffix_lt(a: Seq<u8>, b: Seq<u8>, i: int)
    requires
        a.len() == b.len(),
        0 <= i <= a.len(),
        le_nat(a.subrange(i, a.len() as int)) < le_nat(b.subrange(i, b.len() as int)),
    ensures
        le_nat(a) < le_nat(b),
    decreases i,
{
    if i == 0 {
        assert(a.subrange(0, a.len() as int) =~= a);
        assert(b.subrange(0, b.len() as int) =~= b);
    } else {
        lemma_le_suffix(a, i);
        lemma_le_suffix(b, i);
        lemma_suffix_lt(a, b, i - 1);
    }
}

/// Compares two numbers of the same width given least significant byte first.
pub fn lt_le(a: &[u8], b: &[u8]) -> (r: bool)
    requires
        a@.len() == b@.len(),
    ensures
        r == (le_nat(a@) < le_nat(b@)),
{
    let n = a.len();
    let mut i: usize = n;
    while i > 0
        invariant
            n == a@.len(),
            n == b@.len(),
            i <= n,
            a@.subrange(i as int, n as int) == b@.subrange(i as int, n as int),
        decreases i,
    {
        proof {
            lemma_le_suffix(a@, i as int);
            lemma_le_suffix(b@, i as int);
        }
        if a[i - 1] != b[i - 1] {
            if a[i - 1] < b[i - 1] {
                proof {
                    lemma_suffix_lt(a@, b@, i - 1);
                }
                return true;
            } else {
                proof {
                    lemma_suffix_lt(b@, a@, i - 1);
                }
                return false;
            }
        }
        assert(a@.subrange(i - 1, n as int) =~= b@.subrange(i - 1, n as int)) by {
            assert forall|j: int| 0 <= j < n - (i - 1) implies #[trigger] a@.subrange(i - 1, n as int)[j]
                == b@.subrange(i - 1, n as int)[j] by {
                if j > 0 {
                    assert(a@.subrange(i - 1, n as int)[j] == a@.subrange(i as int, n as int)[j
                        - 1]);
                    assert(b@.subrange(i - 1, n as int)[j] == b@.subrange(i as int, n as int)[j
                        - 1]);
                }
            }
        }
        i -= 1;
    }
    assert(a@ =~= a@.subrange(0, n as int));
    assert(b@ =~= b@.subrange(0, n as int));
    false
}

/// A byte string read most significant first is the reversed string read
/// least significant first.
pub proof fn lemma_be_reversed(t: Seq<u8>, s: Seq<u8>)
    requires
        t.len() == s.len(),
        forall|i: int| 0 <= i < t.len() ==> #[trigger] t[i] == s[s.len() - 1 - i],
    ensures
        be_nat(t) == le_nat(s),
    decreases t.len(),
{
    if t.len() > 0 {
        let t2 = t.drop_last();
        let s2 = s.drop_first();
        assert forall|i: int| 0 <= i < t2.len() implies t2[i] == s2[s2.len() - 1 - i] by {
            assert(t[i] == s[s.len() - 1 - i]);
        }
        lemma_be_reversed(t2, s2);
        assert(t[t.len() - 1] == s[0]);
    }
}

/// 32 bytes read most significant first hold what the same bytes reversed
/// hold read least significant first.
pub proof fn lemma_be_nat_swapped(s: Seq<u8>)
    requires
        s.len() == 32,
    ensures
        be_nat(s) == le_nat(swap_chunks(s, 32)),
{
    let t = swap_chunks(s, 32);
    assert forall|i: int| 0 <= i < s.len() implies #[trigger] s[i] == t[t.len() - 1 - i] by {
        assert((31 - i) / 32 == 0 && (31 - i) % 32 == 31 - i);
    }
    lemma_be_reversed(s, t);
}

/// `n` bytes hold every number below `256^n`.
pub proof fn lemma_le_nat_bound(s: Seq<u8>)
    ensures
        le_nat(s) < pow(256, s.len()),
    decreases s.len(),
{
    reveal(pow);
    if s.len() > 0 {
        lemma_le_nat_bound(s.drop_first());
        let r = le_nat(s.drop_first());
        let p = pow(256, (s.len() - 1) as nat);
        assert(s[0] as nat + 256 * r < 256 * p) by (nonlinear_arith)
            requires
                r < p,
                s[0] < 256,
        ;
    }
}

/// An encoding into `n` bytes has `n` bytes.
pub proof fn lemma_le_bytes_len(v: nat, n: nat)
    ensures
        le_bytes(v, n).len() == n,
    decreases n,
{
    if n > 0 {
        lemma_le_bytes_len(v / 256, (n - 1) as nat);
    }
}

/// Encoding a number into `n` bytes and reading it back gives the number
/// whenever it fits.
pub proof fn lemma_le_bytes_round_trip(v: nat, n: nat)
    requires
        v < pow(256, n),
    ensures
        le_nat(le_bytes(v, n)) == v,
        le_bytes(v, n).len() == n,
    decreases n,
{
    reveal(pow);
    if n > 0 {
        let p = pow(256, (n - 1) as nat);
        assert(v / 256 < p) by (nonlinear_arith)
            requires
                v < 256 * p,
        ;
        lemma_le_bytes_round_trip(v / 256, (n - 1) as nat);
        let b = le_bytes(v, n);
        assert(b.drop_first() =~= le_bytes(v / 256, (n - 1) as nat));
        assert(v == (v % 256) + 256 * (v / 256)) by (nonlinear_arith);
    } else {
        assert(v == 0);
    }
}

/// A byte string is the encoding of the number it holds.
pub proof fn lemma_le_bytes_of(s: Seq<u8>)
    ensures
        le_bytes(le_nat(s), s.len()) == s,
    decreases s.len(),
{
    if s.len() > 0 {
        let r = le_nat(s.drop_first());
        let v = le_nat(s);
        lemma_fundamental_div_mod_converse(v as int, 256, r as int, s[0] as int);
        lemma_le_bytes_of(s.drop_first());
        assert(le_bytes(v, s.len()) =~= s);
    }
}

/// The number that a concatenation holds.
pub proof fn lemma_le_nat_concat(a: Seq<u8>, c: Seq<u8>)
    ensures
        le_nat(a + c) == le_nat(a) + pow(256, a.len()) * le_nat(c),
    decreases a.len(),
{
    reveal(pow);
    if a.len() > 0 {
        assert((a + c).drop_first() =~= a.drop_first() + c);
        lemma_le_nat_concat(a.drop_first(), c);
        let p = pow(256, (a.len() - 1) as nat);
        assert(256 * (le_nat(a.drop_first()) + p * le_nat(c)) == 256 * le_nat(a.drop_first()) + (256
            * p) * le_nat(c)) by (nonlinear_arith);
    } else {
        assert(a + c =~= c);
    }
}

/// Bytes that are all zero hold zero; any other bytes hold more.
pub proof fn lemma_le_nat_zero(s: Seq<u8>)
    ensures
        (le_nat(s) == 0) <==> (forall|i: int| 0 <= i < s.len() ==> #[trigger] s[i] == 0),
    decreases s.len(),
{
    if s.len() > 0 {
        lemma_le_nat_zero(s.drop_first());
        if le_nat(s) == 0 {
            assert forall|i: int| 0 <= i < s.len() implies s[i] == 0 by {
                if i > 0 {
                    assert(s[i] == s.drop_first()[i - 1]);
                }
            }
        }
        if forall|i: int| 0 <= i < s.len() ==> #[trigger] s[i] == 0 {
            assert forall|i: int| 0 <= i < s.len() - 1 implies s.drop_first()[i] == 0 by {
                assert(s.drop_first()[i] == s[i + 1]);
            }
        }
    }
}

/// Bytes with a byte that is not zero hold at least one.
pub proof fn lemma_le_nat_pos(s: Seq<u8>, i: int)
    requires
        0 <= i < s.len(),
        s[i] != 0,
    ensures
        le_nat(s) >= 1,
    decreases s.len(),
{
    if i > 0 {
        assert(s.drop_first()[i - 1] == s[i]);
        lemma_le_nat_pos(s.drop_first(), i - 1);
    }
}

/// Both moduli fit in 32 bytes.
pub proof fn lemma_moduli_fit()
    ensures
        fq_modulus() < pow(256, 32),
        fr_modulus() < pow(256, 32),
{
    lemma_moduli_bytes();
    lemma_le_nat_bound(FQ_MODULUS_LE@);
    lemma_le_nat_bound(FR_MODULUS_LE@);
}

} // verus!
