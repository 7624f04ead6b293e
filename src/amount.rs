use vstd::arithmetic::div_mod::{lemma_fundamental_div_mod, lemma_fundamental_div_mod_converse};
use vstd::prelude::*;
use vstd::string::is_ascii;

verus! {

/// 2^64, the radix of one limb.
pub open spec fn limb_base() -> nat {
    0x1_0000_0000_0000_0000
}

/// 2^128, the radix of one half.
pub open spec fn half_base() -> nat {
    limb_base() * limb_base()
}

/// 2^256: amounts are reduced modulo this when they wrap.
pub open spec fn modulus() -> nat {
    half_base() * half_base()
}

/// The number written by four little-endian 64-bit limbs.
pub open spec fn limbs_value(l: Seq<u64>) -> nat {
    l[0] as nat + limb_base() * (l[1] as nat + limb_base() * (l[2] as nat + limb_base()
        * (l[3] as nat)))
}

/// A native-currency amount in the chain's smallest unit: an unsigned 256-bit
/// integer held as a high and a low 128-bit half.
#[derive(Clone, Copy, Debug, PartialEq, Eq, Structural)]
pub struct Wei {
    pub hi: u128,
    pub lo: u128,
}

/// Adds two halves; the flag says whether the sum passed 2^128.
fn add_half(a: u128, b: u128) -> (r: (u128, bool))
    ensures
        r.0 + (if r.1 { half_base() as int } else { 0int }) == a + b,
{
    if a <= u128::MAX - b {
        (a + b, false)
    } else {
        (a - (u128::MAX - b) - 1, true)
    }
}

proof fn lemma_half_order(h1: nat, l1: nat, h2: nat, l2: nat)
    requires
        l1 < half_base(),
        l2 < half_base(),
    ensures
        (h1 * half_base() + l1 < h2 * half_base() + l2) == (h1 < h2 || (h1 == h2 && l1 < l2)),
{
    let w = half_base();
    if h1 < h2 {
        assert(h1 * w + w <= h2 * w) by (nonlinear_arith)
            requires
                h1 < h2,
        ;
    } else if h1 > h2 {
        assert(h2 * w + w <= h1 * w) by (nonlinear_arith)
            requires
                h2 < h1,
        ;
    }
}

impl Wei {
    /// The amount as a number.
    pub open spec fn value(self) -> nat {
        self.hi as nat * half_base() + self.lo as nat
    }

    pub fn zero() -> (r: Wei)
        ensures
            r.value() == 0,
    {
        Wei { hi: 0, lo: 0 }
    }

    pub fn from_u128(v: u128) -> (r: Wei)
        ensures
            r.value() == v,
    {
        Wei { hi: 0, lo: v }
    }

    /// Builds an amount from four little-endian 64-bit limbs.
    pub fn from_limbs(l: [u64; 4]) -> (r: Wei)
        ensures
            r.value() == limbs_value(l@),
    {
        let b: u128 = 0x1_0000_0000_0000_0000;
        let a0 = l[0] as u128;
        let a1 = l[1] as u128;
        let a2 = l[2] as u128;
        let a3 = l[3] as u128;
        assert(a1 * b + a0 < half_base() && a3 * b + a2 < half_base()) by (nonlinear_arith)
            requires
                a0 < limb_base(),
                a1 < limb_base(),
                a2 < limb_base(),
                a3 < limb_base(),
                b == limb_base(),
        ;
        let lo = a1 * b + a0;
        let hi = a3 * b + a2;
        let r = Wei { hi, lo };
        assert(r.value() == limbs_value(l@)) by (nonlinear_arith)
            requires
                r.value() == (a3 * b + a2) * half_base() + a1 * b + a0,
                half_base() == b * b,
                limbs_value(l@) == a0 + b * (a1 + b * (a2 + b * a3)),
        ;
        r
    }

    /// The four little-endian 64-bit limbs of this amount.
    pub fn to_limbs(&self) -> (r: [u64; 4])
        ensures
            limbs_value(r@) == self.value(),
    {
        let b: u128 = 0x1_0000_0000_0000_0000;
        proof {
            lemma_fundamental_div_mod(self.lo as int, b as int);
            lemma_fundamental_div_mod(self.hi as int, b as int);
        }
        let q0 = self.lo / b;
        let q1 = self.hi / b;
        assert(q0 < limb_base() && q1 < limb_base()) by (nonlinear_arith)
            requires
                q0 == self.lo / b,
                q1 == self.hi / b,
                self.lo < half_base(),
                self.hi < half_base(),
                b == limb_base(),
                half_base() == b * b,
        ;
        let r = [(self.lo % b) as u64, q0 as u64, (self.hi % b) as u64, q1 as u64];
        assert(limbs_value(r@) == self.value()) by (nonlinear_arith)
            requires
                self.lo == b * q0 + self.lo % b,
                self.hi == b * q1 + self.hi % b,
                r@[0] == self.lo % b,
                r@[1] == q0,
                r@[2] == self.hi % b,
                r@[3] == q1,
                half_base() == b * b,
                b == limb_base(),
        ;
        r
    }

    /// Strict comparison of two amounts.
    pub fn lt(&self, other: &Wei) -> (r: bool)
        ensures
            r == (self.value() < other.value()),
    {
        proof {
            lemma_half_order(self.hi as nat, self.lo as nat, other.hi as nat, other.lo as nat);
        }
        self.hi < other.hi || (self.hi == other.hi && self.lo < other.lo)
    }

    /// Sum of two amounts, wrapping around at 2^256.
    pub fn wrapping_add(&self, other: &Wei) -> (r: Wei)
        ensures
            r.value() == (self.value() + other.value()) % modulus(),
    {
        let (lo, carry) = add_half(self.lo, other.lo);
        let (h1, c1) = add_half(self.hi, other.hi);
        let (hi, c2) = add_half(h1, if carry { 1u128 } else { 0u128 });
        let r = Wei { hi, lo };
        proof {
            let w = half_base() as int;
            let ghost s = self.value() + other.value();
            let k: int = if c1 || c2 { 1 } else { 0 };
            assert(!(c1 && c2)) by (nonlinear_arith)
                requires
                    h1 + (if c1 { w } else { 0int }) == self.hi + other.hi,
                    hi + (if c2 { w } else { 0int }) == h1 + (if carry { 1int } else { 0int }),
                    self.hi < w,
                    other.hi < w,
                    hi >= 0,
                    h1 >= 0,
            ;
            assert(s == k * modulus() + r.value()) by (nonlinear_arith)
                requires
                    lo + (if carry { w } else { 0int }) == self.lo + other.lo,
                    h1 + (if c1 { w } else { 0int }) == self.hi + other.hi,
                    hi + (if c2 { w } else { 0int }) == h1 + (if carry { 1int } else { 0int }),
                    !(c1 && c2),
                    k == (if c1 || c2 { 1int } else { 0int }),
                    s == self.hi * w + self.lo + other.hi * w + other.lo,
                    r.value() == hi * w + lo,
                    modulus() == w * w,
            ;
            assert(r.value() < modulus()) by (nonlinear_arith)
                requires
                    r.value() == hi * w + lo,
                    hi < w,
                    lo < w,
                    modulus() == w * w,
            ;
            lemma_fundamental_div_mod_converse(s as int, modulus() as int, k, r.value() as int);
        }
        r
    }
}

/// `n`, or the largest amount where `n` does not fit in 256 bits.
pub open spec fn capped(n: nat) -> nat {
    if n < modulus() {
        n
    } else {
        (modulus() - 1) as nat
    }
}

impl Wei {
    /// The largest amount, 2^256 - 1.
    pub fn max_value() -> (r: Wei)
        ensures
            r.value() == modulus() - 1,
    {
        let r = Wei { hi: u128::MAX, lo: u128::MAX };
        assert(r.value() == modulus() - 1) by (nonlinear_arith)
            requires
                r.value() == u128::MAX * half_base() + u128::MAX,
                half_base() == u128::MAX + 1,
                modulus() == half_base() * half_base(),
        ;
        r
    }

    /// Sum of two amounts, held at the largest amount when it does not fit.
    pub fn saturating_add(&self, other: &Wei) -> (r: Wei)
        ensures
            r.value() == capped(self.value() + other.value()),
    {
        let w = self.wrapping_add(other);
        let ghost s = self.value() + other.value();
        proof {
            assert(self.value() < modulus() && other.value() < modulus()) by (nonlinear_arith)
                requires
                    self.value() == self.hi * half_base() + self.lo,
                    other.value() == other.hi * half_base() + other.lo,
                    self.hi < half_base(),
                    self.lo < half_base(),
                    other.hi < half_base(),
                    other.lo < half_base(),
                    modulus() == half_base() * half_base(),
            ;
            if s < modulus() {
                lemma_fundamental_div_mod_converse(s as int, modulus() as int, 0, s as int);
            } else {
                lemma_fundamental_div_mod_converse(
                    s as int,
                    modulus() as int,
                    1,
                    s - modulus(),
                );
            }
        }
        if w.lt(self) {
            Wei::max_value()
        } else {
            w
        }
    }
}

/// What ruint's `FromStr` for `U256` reads from a text: decimal, or binary, octal
/// or hexadecimal after a `0b`, `0o` or `0x` prefix.
pub uninterp spec fn uint_from_text(s: Seq<char>) -> Option<nat>;

/// What alloy's `parse_ether` reads from a decimal ether amount, in wei.
pub uninterp spec fn ether_to_wei(s: Seq<char>) -> Option<nat>;

/// Relies on `<alloy::primitives::U256 as FromStr>::from_str` to read an unsigned
/// 256-bit integer; the limbs are those of `U256::as_limbs`.
#[verifier::external_body]
fn parse_u256_limbs(s: &str) -> (r: Option<[u64; 4]>)
    ensures
        match r {
            Some(l) => uint_from_text(s@) == Some(limbs_value(l@)),
            None => uint_from_text(s@) is None,
        },
{
    <alloy::primitives::U256 as core::str::FromStr>::from_str(s).ok().map(|u| *u.as_limbs())
}

/// Relies on `alloy::primitives::utils::parse_ether` to turn a decimal ether
/// amount into wei; the limbs are those of `U256::as_limbs`. It cuts surplus
/// fraction digits by byte position, so the text must be ASCII for that cut
/// to fall on a character boundary.
#[verifier::external_body]
fn parse_ether_limbs(s: &str) -> (r: Option<[u64; 4]>)
    requires
        is_ascii(s),
    ensures
        match r {
            Some(l) => ether_to_wei(s@) == Some(limbs_value(l@)),
            None => ether_to_wei(s@) is None,
        },
{
    alloy::primitives::utils::parse_ether(s).ok().map(|u| *u.as_limbs())
}

/// Reads an unsigned 256-bit integer written as an integer literal.
pub fn parse_uint(s: &str) -> (r: Option<Wei>)
    ensures
        match r {
            Some(w) => uint_from_text(s@) == Some(w.value()),
            None => uint_from_text(s@) is None,
        },
{
    match parse_u256_limbs(s) {
        Some(l) => Some(Wei::from_limbs(l)),
        None => None,
    }
}

/// Reads a decimal ether amount, written in ASCII, as wei.
pub fn parse_ether(s: &str) -> (r: Option<Wei>)
    requires
        is_ascii(s),
    ensures
        match r {
            Some(w) => ether_to_wei(s@) == Some(w.value()),
            None => ether_to_wei(s@) is None,
        },
{
    match parse_ether_limbs(s) {
        Some(l) => Some(Wei::from_limbs(l)),
        None => None,
    }
}

} // verus!
