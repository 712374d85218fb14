//! The numeric order of JSON numbers.
//!
//! A numeric comparison reads each number as the binary64 float nearest to
//! it (an integer is rounded to 53 significant bits, ties to even) and
//! compares those floats.  A finite float is ordered by its sign and by the
//! magnitude of its bit pattern, so the comparison is carried out on the
//! integers `order_key` below.
use vstd::arithmetic::div_mod::*;
use vstd::arithmetic::mul::*;
use vstd::arithmetic::power2::*;
use vstd::prelude::*;

use crate::json::JsonNumber;

verus! {

/// Number of binary digits of `n`.
pub open spec fn bit_len(n: nat) -> nat
    decreases n,
{
    if n == 0 {
        0
    } else {
        1 + bit_len(n / 2)
    }
}

/// Bit pattern of the binary64 float nearest to the natural number `n`
/// (`n < 2^64`), ties going to the even significand.
pub open spec fn nearest_f64_bits(n: nat) -> nat {
    if n == 0 {
        0
    } else {
        let l = bit_len(n);
        if l <= 53 {
            ((l + 1022) * pow2(52) + (n * pow2((53 - l) as nat) - pow2(52))) as nat
        } else {
            let s = (l - 53) as nat;
            let q = n / pow2(s);
            let r = n % pow2(s);
            let h = pow2((s - 1) as nat);
            let q1 = if r > h || (r == h && q % 2 == 1) {
                q + 1
            } else {
                q
            };
            if q1 == pow2(53) {
                (l + 1023) * pow2(52)
            } else {
                ((l + 1022) * pow2(52) + (q1 - pow2(52))) as nat
            }
        }
    }
}

/// Bit pattern of the float a JSON number is read as in a numeric comparison.
pub open spec fn f64_image_bits(x: JsonNumber) -> nat {
    match x {
        JsonNumber::PosInt(n) => nearest_f64_bits(n as nat),
        JsonNumber::NegInt(n) => if n < 0 {
            pow2(63) + nearest_f64_bits((-n) as nat)
        } else {
            nearest_f64_bits(n as nat)
        },
        JsonNumber::Float(b) => b as nat,
    }
}

/// An integer ordered as the float with bit pattern `bits` is ordered.
pub open spec fn f64_order_key(bits: nat) -> int {
    let mag = bits % pow2(63);
    if bits >= pow2(63) {
        -mag
    } else {
        mag as int
    }
}

/// The position of a JSON number in the numeric order.
pub open spec fn number_order(x: JsonNumber) -> int {
    f64_order_key(f64_image_bits(x))
}

pub proof fn lemma_bit_len(n: nat)
    requires
        n > 0,
    ensures
        bit_len(n) >= 1,
        pow2((bit_len(n) - 1) as nat) <= n < pow2(bit_len(n)),
    decreases n,
{
    if n == 1 {
        assert(bit_len(0) == 0);
        assert(bit_len(1) == 1);
        lemma2_to64();
    } else {
        lemma_bit_len(n / 2);
        let b = bit_len(n / 2);
        assert(bit_len(n) == b + 1);
        lemma_pow2_unfold(b + 1);
        lemma_pow2_unfold(b);
        assert(pow2(b + 1) == 2 * pow2(b));
        assert(pow2(b) == 2 * pow2((b - 1) as nat));
        assert(2 * (n / 2) <= n <= 2 * (n / 2) + 1);
        assert(pow2(((b + 1) - 1) as nat) == pow2(b));
    }
}

pub proof fn lemma_bit_len_bound(n: nat)
    requires
        n < pow2(64),
    ensures
        bit_len(n) <= 64,
{
    if n > 0 {
        lemma_bit_len(n);
        if bit_len(n) > 64 {
            lemma_pow2_strictly_increases(64, (bit_len(n) - 1) as nat);
        }
    }
}

fn pow2_u64(k: u64) -> (r: u64)
    requires
        k < 64,
    ensures
        r == pow2(k as nat),
{
    let mut r: u64 = 1;
    let mut i: u64 = 0;
    proof {
        lemma2_to64();
    }
    while i < k
        invariant
            i <= k < 64,
            r == pow2(i as nat),
        decreases k - i,
    {
        proof {
            lemma_pow2_unfold((i + 1) as nat);
            lemma_pow2_strictly_increases(i as nat, 63);
            lemma2_to64_rest();
        }
        r = r * 2;
        i = i + 1;
    }
    r
}

fn bit_length(n: u64) -> (l: u64)
    ensures
        l == bit_len(n as nat),
        l <= 64,
{
    let mut m: u64 = n;
    let mut l: u64 = 0;
    proof {
        lemma2_to64();
        lemma_bit_len_bound(n as nat);
    }
    while m > 0
        invariant
            bit_len(n as nat) == l + bit_len(m as nat),
            bit_len(n as nat) <= 64,
        decreases m,
    {
        m = m / 2;
        l = l + 1;
    }
    l
}

/// The bit pattern of the float nearest to `n`.
fn nearest_bits(n: u64) -> (r: u64)
    ensures
        r == nearest_f64_bits(n as nat),
        r < pow2(63),
{
    proof {
        lemma2_to64();
        lemma2_to64_rest();
    }
    if n == 0 {
        return 0;
    }
    let l = bit_length(n);
    let p52: u64 = 0x10_0000_0000_0000;
    proof {
        lemma_bit_len(n as nat);
    }
    if l <= 53 {
        let p = pow2_u64(53 - l);
        proof {
            lemma_pow2_adds((l - 1) as nat, (53 - l) as nat);
            lemma_pow2_adds(l as nat, (53 - l) as nat);
            assert(((l - 1) + (53 - l)) as nat == 52);
            assert((l + (53 - l)) as nat == 53);
            lemma_mul_inequality(pow2((l - 1) as nat) as int, n as int, p as int);
            lemma_mul_strict_inequality(n as int, pow2(l as nat) as int, p as int);
        }
        let m = n * p;
        assert((l + 1022) * p52 <= 1075 * 0x10_0000_0000_0000) by (nonlinear_arith)
            requires
                l <= 53,
                p52 == 0x10_0000_0000_0000,
        ;
        (l + 1022) * p52 + (m - p52)
    } else {
        let s = l - 53;
        let d = pow2_u64(s);
        let h = pow2_u64(s - 1);
        proof {
            lemma_pow2_adds(52, s as nat);
            lemma_pow2_adds(53, s as nat);
            assert((52 + s) as nat == (l - 1) as nat);
            assert((53 + s) as nat == l as nat);
            lemma_pow2_pos(s as nat);
            lemma_div_is_ordered(pow2(52) * d, n as int, d as int);
            lemma_div_multiples_vanish(pow2(52) as int, d as int);
            lemma_div_by_multiple_is_strongly_ordered(n as int, pow2(53) * d, pow2(53) as int, d as int);
            lemma_div_multiples_vanish(pow2(53) as int, d as int);
            lemma_mul_is_commutative(pow2(52) as int, d as int);
            lemma_mul_is_commutative(pow2(53) as int, d as int);
        }
        let q = n / d;
        let r = n % d;
        let q1 = if r > h || (r == h && q % 2 == 1) {
            q + 1
        } else {
            q
        };
        assert((l + 1023) * p52 <= 1087 * 0x10_0000_0000_0000) by (nonlinear_arith)
            requires
                l <= 64,
                p52 == 0x10_0000_0000_0000,
        ;
        if q1 == 2 * p52 {
            (l + 1023) * p52
        } else {
            (l + 1022) * p52 + (q1 - p52)
        }
    }
}

impl JsonNumber {
    /// The position of the number in the numeric order.
    pub fn order_key(&self) -> (k: i64)
        ensures
            k == number_order(*self),
    {
        proof {
            lemma2_to64_rest();
        }
        let bits: u64 = match self {
            JsonNumber::PosInt(n) => nearest_bits(*n),
            JsonNumber::NegInt(n) => {
                if *n >= 0 {
                    nearest_bits(*n as u64)
                } else {
                    let mag: u64 = if *n == i64::MIN {
                        0x8000_0000_0000_0000u64
                    } else {
                        (-*n) as u64
                    };
                    let nb = nearest_bits(mag);
                    0x8000_0000_0000_0000u64 + nb
                }
            },
            JsonNumber::Float(b) => *b,
        };
        let mag = bits % 0x8000_0000_0000_0000u64;
        assert(bits as nat == f64_image_bits(*self));
        if bits >= 0x8000_0000_0000_0000u64 {
            -(mag as i64)
        } else {
            mag as i64
        }
    }

    /// Whether the number is greater than `other` in the numeric order.
    pub fn greater_than(&self, other: &JsonNumber) -> (r: bool)
        ensures
            r == (number_order(*self) > number_order(*other)),
    {
        self.order_key() > other.order_key()
    }
}

} // verus!
