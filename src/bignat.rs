//! Unbounded natural numbers, held as little-endian 64-bit limbs.
//! The arithmetic itself is done by malachite.

use vstd::prelude::*;

verus! {

/// 2^64, the weight of one limb.
pub open spec fn limb_base() -> nat {
    0x1_0000_0000_0000_0000nat
}

/// The number that a little-endian limb sequence denotes.
pub open spec fn limbs_value(s: Seq<u64>) -> nat
    decreases s.len(),
{
    if s.len() == 0 {
        0
    } else {
        s[0] as nat + limb_base() * limbs_value(s.drop_first())
    }
}

/// Relies on malachite's `Natural::from_limbs_asc`, `+` and `into_limbs_asc`:
/// the limbs of the sum of two naturals.
#[verifier::external_body]
fn limbs_add(a: &Vec<u64>, b: &Vec<u64>) -> (r: Vec<u64>)
    ensures
        limbs_value(r@) == limbs_value(a@) + limbs_value(b@),
{
    let x = malachite::Natural::from_limbs_asc(a);
    let y = malachite::Natural::from_limbs_asc(b);
    (x + y).into_limbs_asc()
}

/// Relies on malachite's `Natural::from_limbs_asc`, `-` and `into_limbs_asc`:
/// the limbs of a difference, which panics when `b > a`.
#[verifier::external_body]
fn limbs_sub(a: &Vec<u64>, b: &Vec<u64>) -> (r: Vec<u64>)
    requires
        limbs_value(b@) <= limbs_value(a@),
    ensures
        limbs_value(r@) == limbs_value(a@) - limbs_value(b@),
{
    let x = malachite::Natural::from_limbs_asc(a);
    let y = malachite::Natural::from_limbs_asc(b);
    (x - y).into_limbs_asc()
}

/// Relies on malachite's `Natural::from_limbs_asc` and the order of `Natural`,
/// which is the order of the numbers.
#[verifier::external_body]
fn limbs_le(a: &Vec<u64>, b: &Vec<u64>) -> (r: bool)
    ensures
        r == (limbs_value(a@) <= limbs_value(b@)),
{
    malachite::Natural::from_limbs_asc(a) <= malachite::Natural::from_limbs_asc(b)
}

/// Whether `c` is a decimal digit.
pub open spec fn is_digit(c: char) -> bool {
    '0' <= c && c <= '9'
}

/// The number that a string of decimal digits denotes.
pub open spec fn decimal_value(s: Seq<char>) -> nat
    decreases s.len(),
{
    if s.len() == 0 {
        0
    } else {
        (10 * decimal_value(s.drop_last()) + (s.last() as int - '0' as int)) as nat
    }
}

/// The digits of a natural in decimal text: an optional single leading `+`,
/// then at least one digit and nothing else.
pub open spec fn decimal_digits(s: Seq<char>) -> Seq<char> {
    if s.len() > 0 && s[0] == '+' {
        s.drop_first()
    } else {
        s
    }
}

/// Whether `s` is decimal text that malachite accepts as a natural.
pub open spec fn is_decimal_natural(s: Seq<char>) -> bool {
    let d = decimal_digits(s);
    d.len() > 0 && forall|i: int| 0 <= i < d.len() ==> is_digit(#[trigger] d[i])
}

/// Relies on malachite's `FromStr for Natural`: it accepts a nonempty string of
/// the digits `0`-`9` with an optional single leading `+`, and nothing else.
#[verifier::external_body]
fn limbs_from_decimal(s: &str) -> (r: Option<Vec<u64>>)
    ensures
        r.is_some() == is_decimal_natural(s@),
        r matches Some(l) ==> limbs_value(l@) == decimal_value(decimal_digits(s@)),
{
    match <malachite::Natural as std::str::FromStr>::from_str(s) {
        Ok(n) => Some(n.into_limbs_asc()),
        Err(_) => None,
    }
}

/// An unbounded natural number, such as the count of witness chains.
#[derive(Debug)]
pub struct BigNat {
    pub limbs: Vec<u64>,
}

impl BigNat {
    /// The number denoted.
    pub open spec fn value(&self) -> nat {
        limbs_value(self.limbs@)
    }

    pub fn zero() -> (r: BigNat)
        ensures
            r.value() == 0,
    {
        BigNat { limbs: Vec::new() }
    }

    pub fn from_u64(x: u64) -> (r: BigNat)
        ensures
            r.value() == x as nat,
    {
        let mut limbs: Vec<u64> = Vec::new();
        limbs.push(x);
        proof {
            assert(limbs@.drop_first().len() == 0);
            assert(limbs_value(limbs@.drop_first()) == 0);
        }
        BigNat { limbs }
    }

    /// A copy with the same limbs.
    pub fn copy(&self) -> (r: BigNat)
        ensures
            r.limbs@ == self.limbs@,
    {
        let limbs = self.limbs.clone();
        assert(limbs@ =~= self.limbs@);
        BigNat { limbs }
    }

    pub fn add(&self, other: &BigNat) -> (r: BigNat)
        ensures
            r.value() == self.value() + other.value(),
    {
        BigNat { limbs: limbs_add(&self.limbs, &other.limbs) }
    }

    pub fn sub(&self, other: &BigNat) -> (r: BigNat)
        requires
            other.value() <= self.value(),
        ensures
            r.value() == self.value() - other.value(),
    {
        BigNat { limbs: limbs_sub(&self.limbs, &other.limbs) }
    }

    pub fn le(&self, other: &BigNat) -> (r: bool)
        ensures
            r == (self.value() <= other.value()),
    {
        limbs_le(&self.limbs, &other.limbs)
    }

    /// Reads decimal text: an optional `+`, then one or more digits.
    pub fn parse_decimal(s: &str) -> (r: Option<BigNat>)
        ensures
            r.is_some() == is_decimal_natural(s@),
            r matches Some(n) ==> n.value() == decimal_value(decimal_digits(s@)),
    {
        match limbs_from_decimal(s) {
            Some(limbs) => Some(BigNat { limbs }),
            None => None,
        }
    }
}

} // verus!
