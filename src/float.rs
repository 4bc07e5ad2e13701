//! Exact conversion between `i54` and the bit pattern of an IEEE-754 double.
use vstd::arithmetic::div_mod::lemma_fundamental_div_mod_converse;
use vstd::arithmetic::power2::{
    lemma2_to64, lemma2_to64_rest, lemma_pow2_adds, lemma_pow2_pos, lemma_pow2_strictly_increases, lemma_pow2_unfold,
    pow2,
};
use vstd::prelude::*;

use crate::{i54, i54Error, in_safe_range, MAX_SAFE_INTEGER};

verus! {

/// Position of the highest set bit of a positive integer.
pub open spec fn msb(m: nat) -> nat
    decreases m,
{
    if m <= 1 {
        0
    } else {
        1 + msb(m / 2)
    }
}

/// The bit pattern of the double whose value is the integer `n`, for `n`
/// with magnitude below `2^53`: sign bit, biased exponent `1023 + msb`, and
/// the bits of the magnitude below its highest one, left-aligned in the
/// 52-bit fraction. Zero is positive zero, all bits clear.
pub open spec fn f64_bits_of(n: int) -> int {
    if n == 0 {
        0
    } else {
        let m = (if n < 0 { -n } else { n }) as nat;
        let e = msb(m);
        (if n < 0 { pow2(63) as int } else { 0 }) + (1023 + e) * pow2(52) + (m - pow2(e)) * pow2(
            (52 - e) as nat,
        )
    }
}

/// Whether the double with bit pattern `b` is an integer of the safe range,
/// other than negative zero.
pub open spec fn is_safe_f64(b: int) -> bool {
    exists|n: int| in_safe_range(n) && f64_bits_of(n) == b
}

proof fn lemma_msb_bounds(m: nat)
    requires
        m >= 1,
    ensures
        pow2(msb(m)) <= m < pow2(msb(m) + 1),
    decreases m,
{
    lemma2_to64();
    lemma2_to64_rest();
    if m > 1 {
        let k = msb(m / 2);
        lemma_msb_bounds(m / 2);
        lemma_pow2_unfold(k + 1);
        lemma_pow2_unfold(k + 2);
    }
}

/// The fields of the bit pattern of a nonzero integer of the safe range.
proof fn lemma_fields(n: int)
    requires
        in_safe_range(n),
        n != 0,
    ensures
        ({
            let m = (if n < 0 { -n } else { n }) as nat;
            let e = msb(m);
            let b = f64_bits_of(n);
            let p = pow2((52 - e) as nat) as int;
            &&& e <= 52
            &&& pow2(e) <= m < 2 * pow2(e)
            &&& pow2(e) * p == 0x10_0000_0000_0000
            &&& 0 <= b < 0x1_0000_0000_0000_0000
            &&& (b >= 0x8000_0000_0000_0000) == (n < 0)
            &&& (b / 0x10_0000_0000_0000) % 2048 == 1023 + e
            &&& b % 0x10_0000_0000_0000 == (m - pow2(e)) * p
            &&& (0x10_0000_0000_0000 + b % 0x10_0000_0000_0000) / p == m
        }),
{
    let m = (if n < 0 { -n } else { n }) as nat;
    let e = msb(m);
    let b = f64_bits_of(n);
    lemma2_to64();
    lemma2_to64_rest();
    lemma_msb_bounds(m);
    if e >= 53 {
        if e > 53 {
            lemma_pow2_strictly_increases(53, e);
        }
        assert(false);
    }
    let p: int = pow2((52 - e) as nat) as int;
    let q: int = pow2(e) as int;
    lemma_pow2_adds(e, (52 - e) as nat);
    lemma_pow2_adds(e, 1);
    lemma_pow2_pos((52 - e) as nat);
    assert(e + (52 - e) as nat == 52);
    assert(q * p == 0x10_0000_0000_0000);
    assert(pow2(e + 1) == 2 * q);
    let frac = (m - q) * p;
    assert(0 <= frac < 0x10_0000_0000_0000) by (nonlinear_arith)
        requires
            q <= m < 2 * q,
            q * p == 0x10_0000_0000_0000,
            p > 0,
            frac == (m - q) * p,
    ;
    let s: int = if n < 0 { 1 } else { 0 };
    let hi = s * 2048 + 1023 + e;
    assert(b == (if n < 0 { 0x8000_0000_0000_0000int } else { 0int }) + (1023 + e)
        * 0x10_0000_0000_0000 + frac);
    assert(b == hi * 0x10_0000_0000_0000 + frac);
    lemma_fundamental_div_mod_converse(b, 0x10_0000_0000_0000, hi, frac);
    lemma_fundamental_div_mod_converse(hi, 2048, s, (1023 + e) as int);
    assert(0x10_0000_0000_0000 + frac == m * p) by (nonlinear_arith)
        requires
            q * p == 0x10_0000_0000_0000,
            frac == (m - q) * p,
    ;
    lemma_fundamental_div_mod_converse(m * p, p, m as int, 0);
}

/// Distinct integers of the safe range have distinct bit patterns, so the
/// value read back from a double is the one that was written.
pub proof fn lemma_bits_injective(a: int, c: int)
    requires
        in_safe_range(a),
        in_safe_range(c),
        f64_bits_of(a) == f64_bits_of(c),
    ensures
        a == c,
{
    if a != 0 {
        lemma_fields(a);
    }
    if c != 0 {
        lemma_fields(c);
    }
}

/// Every integer of the safe range is a double, and reading its bit pattern
/// back gives the same integer.
pub proof fn lemma_f64_exact(n: int)
    requires
        in_safe_range(n),
    ensures
        is_safe_f64(f64_bits_of(n)),
        0 <= f64_bits_of(n) < 0x1_0000_0000_0000_0000,
        forall|c: int| in_safe_range(c) && f64_bits_of(c) == f64_bits_of(n) ==> c == n,
{
    if n != 0 {
        lemma_fields(n);
    }
    assert forall|c: int| in_safe_range(c) && f64_bits_of(c) == f64_bits_of(n) implies c == n by {
        lemma_bits_injective(c, n);
    }
}

/// A bit pattern either encodes no integer of the safe range, or exactly
/// one: converting it to `i54` and back reproduces the same bits.
pub proof fn lemma_f64_round_trip(b: u64)
    ensures
        is_safe_f64(b as int) ==> exists|n: int|
            #![trigger f64_bits_of(n)]
            in_safe_range(n) && f64_bits_of(n) == b && forall|c: int|
                in_safe_range(c) && f64_bits_of(c) == b ==> c == n,
{
    if is_safe_f64(b as int) {
        let n = choose|n: int| in_safe_range(n) && f64_bits_of(n) == b;
        lemma_f64_exact(n);
    }
}

/// `2^k` computed by doubling.
fn pow2_u64(k: u64) -> (r: u64)
    requires
        k < 64,
    ensures
        r == pow2(k as nat),
{
    proof {
        lemma2_to64();
        lemma2_to64_rest();
    }
    let mut r: u64 = 1;
    let mut i: u64 = 0;
    while i < k
        invariant
            i <= k < 64,
            r == pow2(i as nat),
        decreases k - i,
    {
        proof {
            lemma2_to64();
            lemma2_to64_rest();
            lemma_pow2_adds(i as nat, 1);
            lemma_pow2_strictly_increases(i as nat, 63);
        }
        r = r * 2;
        i = i + 1;
    }
    r
}

/// Exact bit pattern of a magnitude in `1 .. 2^53`, with the sign bit given.
fn encode_magnitude(m: u64, negative: bool) -> (r: u64)
    requires
        1 <= m <= MAX_SAFE_INTEGER,
    ensures
        r == f64_bits_of(if negative { -(m as int) } else { m as int }),
{
    let n: Ghost<int> = Ghost(if negative { -(m as int) } else { m as int });
    proof {
        lemma_fields(n@);
    }
    let mut t: u64 = m;
    let mut e: u64 = 0;
    while t > 1
        invariant
            1 <= t,
            msb(m as nat) == e + msb(t as nat),
            msb(m as nat) <= 52,
        decreases t,
    {
        t = t / 2;
        e = e + 1;
    }
    let p = pow2_u64(52 - e);
    let q = pow2_u64(e);
    proof {
        lemma_pow2_adds(e as nat, (52 - e) as nat);
    }
    let sign: u64 = if negative { 0x8000_0000_0000_0000 } else { 0 };
    proof {
        lemma2_to64();
        lemma2_to64_rest();
        assert((m - q) * p < 0x10_0000_0000_0000) by (nonlinear_arith)
            requires
                q <= m < 2 * q,
                q * p == 0x10_0000_0000_0000,
                p > 0,
        ;
    }
    sign + (1023 + e) * 0x10_0000_0000_0000 + (m - q) * p
}

impl i54 {
    /// The bit pattern of the double equal to this value. The conversion is
    /// exact: every value of the safe range is a double.
    pub fn to_f64_bits(&self) -> (r: u64)
        ensures
            r == f64_bits_of(self@),
    {
        let v = self.as_i64();
        if v == 0 {
            0
        } else if v < 0 {
            encode_magnitude((-v) as u64, true)
        } else {
            encode_magnitude(v as u64, false)
        }
    }

    /// Checked conversion from the bit pattern of a double: succeeds exactly
    /// when that double is an integer of the safe range. Fractions, values
    /// beyond the range, infinities, NaNs and negative zero all fail.
    pub fn try_from_f64_bits(b: u64) -> (r: Result<i54, i54Error>)
        ensures
            r is Ok <==> is_safe_f64(b as int),
            r matches Ok(v) ==> in_safe_range(v@) && f64_bits_of(v@) == b,
            r is Err ==> r == Err::<i54, i54Error>(i54Error::ConversionFailed),
    {
        proof {
            lemma2_to64();
            lemma2_to64_rest();
        }
        let exp = (b / 0x10_0000_0000_0000) % 2048;
        let frac = b % 0x10_0000_0000_0000;
        let negative = b >= 0x8000_0000_0000_0000;
        let candidate: i64 = if exp == 0 && frac == 0 {
            0
        } else if exp < 1023 || exp > 1075 {
            proof {
                if is_safe_f64(b as int) {
                    let n = choose|n: int| in_safe_range(n) && f64_bits_of(n) == b;
                    lemma_fields(n);
                }
            }
            return Err(i54Error::ConversionFailed);
        } else {
            let e = exp - 1023;
            let p = pow2_u64(52 - e);
            proof {
                lemma_pow2_adds(e as nat, (52 - e) as nat);
                lemma_pow2_pos(e as nat);
                lemma_pow2_pos((52 - e) as nat);
                let q: int = pow2(e as nat) as int;
                assert((0x10_0000_0000_0000 + frac as int) / (p as int) < 2 * q) by (nonlinear_arith)
                    requires
                        q * p == 0x10_0000_0000_0000,
                        p > 0,
                        frac < 0x10_0000_0000_0000,
                ;
                lemma_pow2_adds(e as nat, 1);
                lemma_pow2_strictly_increases(e as nat, 53);
            }
            let m = (0x10_0000_0000_0000 + frac) / p;
            if negative {
                -(m as i64)
            } else {
                m as i64
            }
        };
        proof {
            if is_safe_f64(b as int) {
                let n = choose|n: int| in_safe_range(n) && f64_bits_of(n) == b;
                if n != 0 {
                    lemma_fields(n);
                }
                assert(candidate == n);
            }
        }
        match i54::try_from_i64(candidate) {
            Ok(v) => {
                if v.to_f64_bits() == b {
                    Ok(v)
                } else {
                    Err(i54Error::ConversionFailed)
                }
            },
            Err(e) => Err(e),
        }
    }

    /// Compares with the double of bit pattern `b` after a checked
    /// conversion; a double that is no integer of the range is unequal.
    pub fn equals_f64_bits(&self, b: u64) -> (r: bool)
        ensures
            r == (f64_bits_of(self@) == b),
    {
        let x = self.as_i64();
        match i54::try_from_f64_bits(b) {
            Ok(v) => {
                let y = v.as_i64();
                proof {
                    if f64_bits_of(self@) == b {
                        lemma_bits_injective(self@, v@);
                    }
                }
                y == x
            },
            Err(_) => false,
        }
    }
}

} // verus!
