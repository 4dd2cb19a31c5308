//! Numbers of the generic value tree and arbitrary-precision integers of the token model.
use vstd::prelude::*;

verus! {

/// `2^e`.
pub open spec fn two_pow(e: nat) -> nat
    decreases e,
{
    if e == 0 {
        1
    } else {
        2 * two_pow((e - 1) as nat)
    }
}

pub proof fn lemma_two_pow_positive(e: nat)
    ensures
        two_pow(e) >= 1,
    decreases e,
{
    if e > 0 {
        lemma_two_pow_positive((e - 1) as nat);
    }
}

pub proof fn lemma_two_pow_adds(a: nat, b: nat)
    ensures
        two_pow(a + b) == two_pow(a) * two_pow(b),
    decreases b,
{
    if b > 0 {
        lemma_two_pow_adds(a, (b - 1) as nat);
        let x = two_pow(a);
        let y = two_pow((b - 1) as nat);
        assert(two_pow(a + b) == 2 * two_pow((a + b - 1) as nat));
        assert(two_pow((a + b - 1) as nat) == x * y);
        assert(two_pow(b) == 2 * y);
        assert(2 * (x * y) == x * (2 * y)) by (nonlinear_arith);
    } else {
        assert(two_pow(0) == 1);
        assert(a + b == a);
    }
}

/// A number of the generic value tree: `mantissa * 2^exponent`, which holds every finite
/// binary floating-point value exactly, or a value that is not finite.
#[derive(Clone, Copy, Debug, PartialEq, Eq)]
pub enum Number {
    Finite { mantissa: i64, exponent: i32 },
    NonFinite,
}

pub open spec fn abs_int(x: int) -> nat {
    if x < 0 {
        (-x) as nat
    } else {
        x as nat
    }
}

impl Number {
    /// The number has no fractional part.
    pub open spec fn is_integer(self) -> bool {
        match self {
            Number::Finite { mantissa, exponent } => exponent >= 0 || abs_int(mantissa as int)
                % two_pow((-exponent) as nat) == 0,
            Number::NonFinite => false,
        }
    }

    /// The absolute value, rounded toward zero.
    pub open spec fn magnitude(self) -> nat {
        match self {
            Number::Finite { mantissa, exponent } => if exponent >= 0 {
                abs_int(mantissa as int) * two_pow(exponent as nat)
            } else {
                abs_int(mantissa as int) / two_pow((-exponent) as nat)
            },
            Number::NonFinite => 0,
        }
    }

    pub open spec fn is_negative(self) -> bool {
        match self {
            Number::Finite { mantissa, .. } => mantissa < 0,
            Number::NonFinite => false,
        }
    }

    /// The value, rounded toward zero.
    pub open spec fn int_value(self) -> int {
        if self.is_negative() {
            -self.magnitude()
        } else {
            self.magnitude() as int
        }
    }

    /// The number that stands for an integer.
    pub open spec fn spec_of_integer(v: int) -> Number {
        Number::Finite { mantissa: v as i64, exponent: 0 }
    }

    pub fn from_u32(v: u32) -> (r: Number)
        ensures
            r == Number::spec_of_integer(v as int),
            r.is_integer(),
            r.int_value() == v,
    {
        let r = Number::Finite { mantissa: v as i64, exponent: 0 };
        assert(two_pow(0) == 1);
        assert(abs_int(v as i64 as int) == v);
        assert(r.magnitude() == v * two_pow(0));
        r
    }
}

proof fn lemma_odd_not_divisible(r: nat, i: nat, k: nat)
    requires
        i < k,
        r % 2 != 0,
    ensures
        (r * two_pow(i)) % two_pow(k) != 0,
{
    lemma_two_pow_adds(i, (k - i) as nat);
    lemma_two_pow_adds(1, (k - i - 1) as nat);
    lemma_two_pow_positive(i);
    lemma_two_pow_positive((k - i - 1) as nat);
    let p = two_pow(i);
    let q = two_pow((k - i - 1) as nat);
    assert(two_pow(1) == 2) by {
        assert(two_pow(0) == 1);
    }
    assert(two_pow(k) == p * (2 * q));
    if (r * p) % (p * (2 * q)) == 0 {
        let t = (r * p) / (p * (2 * q));
        assert(r * p == t * (p * (2 * q))) by (nonlinear_arith)
            requires
                (r * p) % (p * (2 * q)) == 0,
                p > 0,
                q > 0,
                t == (r * p) / (p * (2 * q)),
        ;
        assert(r == 2 * (t * q)) by (nonlinear_arith)
            requires
                r * p == t * (p * (2 * q)),
                p > 0,
        ;
        assert(r % 2 == 0) by (nonlinear_arith)
            requires
                r == 2 * (t * q),
        ;
    }
}

proof fn lemma_exact_division(r: nat, k: nat)
    ensures
        (r * two_pow(k)) % two_pow(k) == 0,
        (r * two_pow(k)) / two_pow(k) == r,
{
    lemma_two_pow_positive(k);
    let p = two_pow(k);
    assert((r * p) % p == 0 && (r * p) / p == r) by (nonlinear_arith)
        requires
            p > 0,
    ;
}

/// The sign and the magnitude of `n`, where `n` is an integer whose magnitude fits in 128 bits.
pub fn integer_parts(n: Number) -> (r: Option<(bool, u128)>)
    ensures
        r is Some <==> n.is_integer() && n.magnitude() <= u128::MAX,
        r matches Some(p) ==> p.0 == n.is_negative() && p.1 == n.magnitude(),
{
    match n {
        Number::NonFinite => None,
        Number::Finite { mantissa, exponent } => {
            let m: u128 = if mantissa < 0 {
                (0i128 - mantissa as i128) as u128
            } else {
                mantissa as u128
            };
            assert(m == abs_int(mantissa as int));
            if m == 0 {
                proof {
                    assert(0nat * two_pow(exponent as nat) == 0);
                    lemma_two_pow_positive((-exponent) as nat);
                    assert(0nat % two_pow((-exponent) as nat) == 0);
                    assert(0nat / two_pow((-exponent) as nat) == 0);
                }
                return Some((mantissa < 0, 0));
            }
            assert(two_pow(0) == 1);
            assert(m == m * two_pow(0));
            if exponent >= 0 {
                let mut r: u128 = m;
                let mut i: i32 = 0;
                while i < exponent
                    invariant
                        0 <= i <= exponent,
                        r == m * two_pow(i as nat),
                        m > 0,
                        m == abs_int(mantissa as int),
                        n == (Number::Finite { mantissa, exponent }),
                    decreases exponent - i,
                {
                    if r > u128::MAX / 2 {
                        proof {
                            lemma_two_pow_adds((i + 1) as nat, (exponent - i - 1) as nat);
                            lemma_two_pow_positive((exponent - i - 1) as nat);
                            let rest = two_pow((exponent - i - 1) as nat);
                            assert(two_pow((i + 1) as nat) == 2 * two_pow(i as nat));
                            assert(m * two_pow(exponent as nat) == (2 * r) * rest) by (
                            nonlinear_arith)
                                requires
                                    r == m * two_pow(i as nat),
                                    two_pow(exponent as nat) == two_pow((i + 1) as nat) * rest,
                                    two_pow((i + 1) as nat) == 2 * two_pow(i as nat),
                            ;
                            assert((2 * r) * rest >= 2 * r) by (nonlinear_arith)
                                requires
                                    rest >= 1,
                            ;
                            assert(n.magnitude() == m * two_pow(exponent as nat));
                            assert(n.magnitude() > u128::MAX);
                        }
                        return None;
                    }
                    r = r * 2;
                    i = i + 1;
                    proof {
                        assert(two_pow(i as nat) == 2 * two_pow((i - 1) as nat));
                        assert(m * (2 * two_pow((i - 1) as nat)) == 2 * (m * two_pow(
                            (i - 1) as nat,
                        ))) by (nonlinear_arith);
                    }
                }
                Some((mantissa < 0, r))
            } else {
                let k: i64 = 0i64 - exponent as i64;
                let mut r: u128 = m;
                let mut i: i64 = 0;
                while i < k
                    invariant
                        0 <= i <= k,
                        k == -exponent,
                        m == r * two_pow(i as nat),
                        m == abs_int(mantissa as int),
                        n == (Number::Finite { mantissa, exponent }),
                    decreases k - i,
                {
                    if r % 2 != 0 {
                        proof {
                            lemma_odd_not_divisible(r as nat, i as nat, k as nat);
                            assert(k as nat == (-exponent) as nat);
                            assert(abs_int(mantissa as int) % two_pow((-exponent) as nat) != 0);
                            assert(!n.is_integer());
                        }
                        return None;
                    }
                    proof {
                        assert(two_pow((i + 1) as nat) == 2 * two_pow(i as nat));
                        assert(r * two_pow(i as nat) == (r / 2) * (2 * two_pow(i as nat))) by (
                        nonlinear_arith)
                            requires
                                r % 2 == 0,
                        ;
                    }
                    r = r / 2;
                    i = i + 1;
                }
                proof {
                    lemma_exact_division(r as nat, k as nat);
                }
                Some((mantissa < 0, r))
            }
        },
    }
}

/// The value of base-2^32 digits, least significant first.
pub open spec fn limbs_value(s: Seq<u32>) -> nat
    decreases s.len(),
{
    if s.len() == 0 {
        0
    } else {
        (s[0] + 4294967296 * limbs_value(s.drop_first())) as nat
    }
}

/// A natural number of any size.
#[derive(Clone, Debug, PartialEq, Eq)]
pub struct BigNat {
    /// Base-2^32 digits, least significant first.
    pub limbs: Vec<u32>,
}

impl View for BigNat {
    type V = nat;

    open spec fn view(&self) -> nat {
        limbs_value(self.limbs@)
    }
}

/// An integer of any size.
#[derive(Clone, Debug, PartialEq, Eq)]
pub struct BigInteger {
    pub negative: bool,
    pub magnitude: BigNat,
}

impl View for BigInteger {
    type V = int;

    open spec fn view(&self) -> int {
        if self.negative {
            -self.magnitude@
        } else {
            self.magnitude@ as int
        }
    }
}

impl BigNat {
    /// The digits of `v`, with no most significant zero digit.
    pub fn from_u128(v: u128) -> (r: BigNat)
        ensures
            r@ == v,
            r.limbs@.len() == 0 || r.limbs@.last() != 0,
    {
        let d0 = (v % 4294967296) as u32;
        let v1 = v / 4294967296;
        let d1 = (v1 % 4294967296) as u32;
        let v2 = v1 / 4294967296;
        let d2 = (v2 % 4294967296) as u32;
        let v3 = v2 / 4294967296;
        assert(v3 < 4294967296);
        let d3 = v3 as u32;
        let limbs = if v3 != 0 {
            vec![d0, d1, d2, d3]
        } else if v2 != 0 {
            vec![d0, d1, d2]
        } else if v1 != 0 {
            vec![d0, d1]
        } else if v != 0 {
            vec![d0]
        } else {
            Vec::new()
        };
        proof {
            let e = Seq::<u32>::empty();
            assert(limbs_value(e) == 0);
            let s3 = seq![d3];
            let s2 = seq![d2, d3];
            let s1 = seq![d1, d2, d3];
            assert(s3.drop_first() =~= e);
            assert(s2.drop_first() =~= s3);
            assert(s1.drop_first() =~= s2);
            assert(limbs_value(s3) == d3 + 4294967296 * limbs_value(s3.drop_first()));
            assert(limbs_value(s2) == d2 + 4294967296 * d3);
            assert(limbs_value(s1) == d1 + 4294967296 * (d2 + 4294967296 * d3));
            let t2 = seq![d2];
            let t1 = seq![d1, d2];
            let u1 = seq![d1];
            assert(t2.drop_first() =~= e);
            assert(t1.drop_first() =~= t2);
            assert(u1.drop_first() =~= e);
            assert(limbs_value(t2) == d2 + 4294967296 * limbs_value(t2.drop_first()));
            assert(limbs_value(t1) == d1 + 4294967296 * d2);
            assert(limbs_value(u1) == d1 + 4294967296 * limbs_value(u1.drop_first()));
            if v3 != 0 {
                assert(limbs@.drop_first() =~= s1);
            } else if v2 != 0 {
                assert(limbs@.drop_first() =~= t1);
            } else if v1 != 0 {
                assert(limbs@.drop_first() =~= u1);
            } else if v != 0 {
                assert(limbs@.drop_first() =~= e);
            }
        }
        BigNat { limbs }
    }
}

} // verus!
