//! The base field of the arithmetization: integers modulo the Mersenne prime
//! `2^31 - 1`, with exact (never wrapping) modular arithmetic.

use vstd::arithmetic::div_mod::{
    lemma_mod_sub_multiples_vanish, lemma_mul_mod_noop_left, lemma_mul_mod_noop_right,
    lemma_small_mod,
};
use vstd::arithmetic::mul::lemma_mul_is_associative;
use vstd::prelude::*;

verus! {

/// The field modulus, a Mersenne prime.
pub const P: u32 = 0x7fff_ffff;

/// Addition in the field, on mathematical representatives.
pub open spec fn add_f(a: int, b: int) -> int {
    (a + b) % (P as int)
}

/// Subtraction in the field, on mathematical representatives.
pub open spec fn sub_f(a: int, b: int) -> int {
    (a - b) % (P as int)
}

/// Multiplication in the field, on mathematical representatives.
pub open spec fn mul_f(a: int, b: int) -> int {
    (a * b) % (P as int)
}

/// Whether `x` has a multiplicative inverse modulo `P`.
pub open spec fn is_unit(x: int) -> bool {
    exists|y: int| 0 <= y < P as int && #[trigger] ((x * y) % (P as int)) == 1
}

/// The multiplicative inverse of `x` modulo `P`, meaningful only when
/// `is_unit(x)` holds.
pub open spec fn finv(x: int) -> int {
    choose|y: int| 0 <= y < P as int && #[trigger] ((x * y) % (P as int)) == 1
}

/// A field element: a canonical representative in `[0, P)`.
#[derive(Clone, Copy, Debug, PartialEq, Eq, Structural)]
pub struct Fp {
    pub(crate) v: u32,
}

impl Fp {
    /// The mathematical value of the element.
    pub closed spec fn val(self) -> int {
        self.v as int
    }

    /// The representative is reduced.
    pub closed spec fn wf(self) -> bool {
        self.v < P
    }

    /// A well-formed element holds a reduced representative.
    pub proof fn lemma_range(self)
        requires
            self.wf(),
        ensures
            0 <= self.val() < P as int,
    {
    }

    pub fn zero() -> (r: Fp)
        ensures
            r.wf(),
            r.val() == 0,
    {
        Fp { v: 0 }
    }

    pub fn one() -> (r: Fp)
        ensures
            r.wf(),
            r.val() == 1,
    {
        Fp { v: 1 }
    }

    /// Builds an element from an already-reduced representative.
    pub fn new(x: u32) -> (r: Fp)
        requires
            x < P,
        ensures
            r.wf(),
            r.val() == x,
    {
        Fp { v: x }
    }

    /// Builds an element from an arbitrary machine word, reducing it.
    pub fn from_u32_reduced(x: u32) -> (r: Fp)
        ensures
            r.wf(),
            r.val() == (x as int) % (P as int),
    {
        Fp { v: x % P }
    }

    /// The canonical representative.
    pub fn value(&self) -> (r: u32)
        ensures
            r as int == self.val(),
    {
        self.v
    }

    pub fn add(self, o: Fp) -> (r: Fp)
        requires
            self.wf(),
            o.wf(),
        ensures
            r.wf(),
            r.val() == add_f(self.val(), o.val()),
    {
        let t: u32 = self.v + o.v;
        let s: u32 = if t >= P {
            t - P
        } else {
            t
        };
        proof {
            let t = self.val() + o.val();
            if t >= P as int {
                lemma_mod_sub_multiples_vanish(t - P as int, P as int);
                lemma_small_mod((t - P as int) as nat, P as nat);
            } else {
                lemma_small_mod(t as nat, P as nat);
            }
        }
        Fp { v: s }
    }

    pub fn sub(self, o: Fp) -> (r: Fp)
        requires
            self.wf(),
            o.wf(),
        ensures
            r.wf(),
            r.val() == sub_f(self.val(), o.val()),
    {
        let s: u32 = if self.v >= o.v {
            self.v - o.v
        } else {
            self.v + (P - o.v)
        };
        proof {
            let t = self.val() - o.val();
            if t >= 0 {
                lemma_small_mod(t as nat, P as nat);
            } else {
                assert((t + P as int) % (P as int) == t % (P as int)) by {
                    lemma_mod_sub_multiples_vanish(t, P as int);
                };
                lemma_small_mod((t + P as int) as nat, P as nat);
            }
        }
        Fp { v: s }
    }

    pub fn mul(self, o: Fp) -> (r: Fp)
        requires
            self.wf(),
            o.wf(),
        ensures
            r.wf(),
            r.val() == mul_f(self.val(), o.val()),
    {
        proof {
            assert((self.v as int) * (o.v as int) < 0x4000_0000_0000_0000) by (nonlinear_arith)
                requires
                    self.v < 0x8000_0000u32,
                    o.v < 0x8000_0000u32,
            ;
            vstd::arithmetic::mul::lemma_mul_nonnegative(self.v as int, o.v as int);
        }
        let prod: u64 = (self.v as u64) * (o.v as u64);
        let r: u64 = prod % (P as u64);
        Fp { v: r as u32 }
    }

    /// The multiplicative inverse, by the extended Euclidean algorithm. It
    /// succeeds exactly on the units of the field: the Bézout identity it
    /// maintains yields the inverse when the remainders reach 1, and the
    /// final remainder divides both the input and the modulus, so any larger
    /// final remainder rules an inverse out.
    pub fn inv(self) -> (r: Option<Fp>)
        requires
            self.wf(),
        ensures
            r is Some <==> is_unit(self.val()),
            r matches Some(y) ==> y.wf() && mul_f(self.val(), y.val()) == 1 && y.val() == finv(
                self.val(),
            ),
            self.val() == 0 ==> r is None,
    {
        let ghost xi = self.val();
        let ghost p = P as int;
        let mut r0: u32 = P;
        let mut r1: u32 = self.v;
        let mut fa0: Fp = Fp::zero();
        let mut fa1: Fp = Fp::one();
        let ghost mut a0: int = 0;
        let ghost mut b0: int = 1;
        let ghost mut a1: int = 1;
        let ghost mut b1: int = 0;
        while r1 != 0
            invariant
                self.wf(),
                xi == self.val(),
                p == P as int,
                1 <= r0 <= P,
                r1 < r0,
                fa0.wf(),
                fa1.wf(),
                fa0.val() == a0 % p,
                fa1.val() == a1 % p,
                r0 as int == a0 * xi + b0 * p,
                r1 as int == a1 * xi + b1 * p,
                forall|d: int|
                    1 <= d && #[trigger] ((r0 as int) % d) == 0 && (r1 as int) % d == 0 ==> xi % d
                        == 0 && p % d == 0,
            decreases r1,
        {
            let q: u32 = r0 / r1;
            let rem: u32 = r0 % r1;
            let ghost new_a1 = a0 - (q as int) * a1;
            let ghost new_b1 = b0 - (q as int) * b1;
            proof {
                vstd::arithmetic::div_mod::lemma_fundamental_div_mod(r0 as int, r1 as int);
                assert(rem as int == new_a1 * xi + new_b1 * p) by (nonlinear_arith)
                    requires
                        r0 as int == a0 * xi + b0 * p,
                        r1 as int == a1 * xi + b1 * p,
                        r0 as int == (r1 as int) * (q as int) + rem as int,
                        new_a1 == a0 - (q as int) * a1,
                        new_b1 == b0 - (q as int) * b1,
                ;
            }
            let fq = Fp::from_u32_reduced(q);
            let fprod = fq.mul(fa1);
            let new_fa1 = fa0.sub(fprod);
            proof {
                assert(fprod.val() == ((q as int) * a1) % p) by {
                    vstd::arithmetic::div_mod::lemma_mul_mod_noop(q as int, a1, p);
                };
                assert(new_fa1.val() == new_a1 % p) by {
                    vstd::arithmetic::div_mod::lemma_sub_mod_noop(a0, (q as int) * a1, p);
                };
                assert forall|d: int|
                    1 <= d && #[trigger] ((r1 as int) % d) == 0 && (rem as int) % d
                        == 0 implies xi % d == 0 && p % d == 0 by {
                    assert(((r1 as int) * (q as int)) % d == 0) by {
                        lemma_mul_mod_noop_left(r1 as int, q as int, d);
                        assert(0int * (q as int) == 0) by (nonlinear_arith);
                        lemma_small_mod(0nat, d as nat);
                    };
                    assert((r0 as int) % d == 0) by {
                        lemma_small_mod(0nat, d as nat);
                        vstd::arithmetic::div_mod::lemma_add_mod_noop(
                            (r1 as int) * (q as int),
                            rem as int,
                            d,
                        );
                        assert(r0 as int == (r1 as int) * (q as int) + rem as int);
                    };
                }
            }
            r0 = r1;
            r1 = rem;
            fa0 = fa1;
            fa1 = new_fa1;
            proof {
                a0 = a1;
                b0 = b1;
                a1 = new_a1;
                b1 = new_b1;
            }
        }
        if r0 == 1 {
            proof {
                // 1 == a0 * x + b0 * P, so a0 is the inverse of x modulo P
                assert((a0 * xi) % p == 1) by {
                    assert(a0 * xi == p * (-b0) + 1) by (nonlinear_arith)
                        requires
                            1 == a0 * xi + b0 * p,
                    ;
                    vstd::arithmetic::div_mod::lemma_mod_multiples_vanish(-b0, 1, p);
                    lemma_small_mod(1nat, P as nat);
                };
                assert((xi * fa0.val()) % p == 1) by {
                    lemma_mul_mod_noop_right(xi, a0, p);
                    vstd::arithmetic::mul::lemma_mul_is_commutative(xi, a0);
                };
                assert(xi != 0) by {
                    if xi == 0 {
                        assert(xi * fa0.val() == 0) by (nonlinear_arith)
                            requires
                                xi == 0,
                        ;
                        lemma_small_mod(0nat, P as nat);
                    }
                }
                lemma_finv_of(xi, fa0.val());
            }
            Some(fa0)
        } else {
            proof {
                // the final remainder divides both x and P and exceeds 1, so
                // a unit witness would make it divide 1
                let g = r0 as int;
                assert(g % g == 0) by {
                    vstd::arithmetic::div_mod::lemma_mod_self_0(g);
                };
                assert(0int % g == 0);
                assert(xi % g == 0 && p % g == 0);
                assert forall|y: int| #[trigger] ((xi * y) % p) != 1 by {
                    if (xi * y) % p == 1 {
                        vstd::arithmetic::div_mod::lemma_fundamental_div_mod(xi * y, p);
                        let k = (xi * y) / p;
                        assert(xi * y - p * k == 1);
                        assert((xi * y) % g == 0) by {
                            lemma_mul_mod_noop_left(xi, y, g);
                        };
                        assert((p * k) % g == 0) by {
                            lemma_mul_mod_noop_left(p, k, g);
                        };
                        assert(1int % g == 0) by {
                            vstd::arithmetic::div_mod::lemma_sub_mod_noop(xi * y, p * k, g);
                        };
                        assert(1int % g == 1) by {
                            lemma_small_mod(1nat, g as nat);
                        };
                    }
                }
                assert(!is_unit(xi));
            }
            None
        }
    }
}

/// A witnessed inverse is the canonical one: inverses are unique.
pub proof fn lemma_inv_unique(d: int, y1: int, y2: int)
    requires
        0 <= y1 < P as int,
        0 <= y2 < P as int,
        (d * y1) % (P as int) == 1,
        (d * y2) % (P as int) == 1,
    ensures
        y1 == y2,
{
    let p = P as int;
    assert(y1 == (y1 * (d * y2)) % p) by {
        lemma_mul_mod_noop_right(y1, d * y2, p);
        lemma_small_mod(y1 as nat, P as nat);
    };
    assert(y1 * (d * y2) == (d * y1) * y2) by {
        lemma_mul_is_associative(y1, d, y2);
        vstd::arithmetic::mul::lemma_mul_is_commutative(y1, d);
    };
    assert(((d * y1) * y2) % p == y2) by {
        lemma_mul_mod_noop_left(d * y1, y2, p);
        lemma_small_mod(y2 as nat, P as nat);
    };
}

/// The canonical inverse of a unit is a reduced representative and inverts.
pub proof fn lemma_finv_of_bounds(d: int)
    requires
        is_unit(d),
    ensures
        0 <= finv(d) < P as int,
        (d * finv(d)) % (P as int) == 1,
{
    assert(exists|y: int| 0 <= y < P as int && #[trigger] ((d * y) % (P as int)) == 1);
}

/// Any concrete witness of invertibility pins down `finv`.
pub proof fn lemma_finv_of(d: int, y: int)
    requires
        0 <= y < P as int,
        (d * y) % (P as int) == 1,
    ensures
        is_unit(d),
        finv(d) == y,
        0 <= finv(d) < P as int,
        (d * finv(d)) % (P as int) == 1,
{
    assert(is_unit(d));
    let w = finv(d);
    assert(0 <= w < P as int && (d * w) % (P as int) == 1) by {
        assert(exists|y0: int| 0 <= y0 < P as int && #[trigger] ((d * y0) % (P as int)) == 1);
    };
    lemma_inv_unique(d, w, y);
}

} // verus!
