//! Exact throughput values.
//!
//! A throughput is a transaction count divided by an elapsed time. It is kept as the
//! two integers it was measured from, and compared by cross-multiplication, so no
//! rounding ever decides an order.

use vstd::prelude::*;

verus! {

/// A throughput in transactions per second, as a mathematical value: a fraction with a
/// positive denominator, or a value above every fraction.
pub enum Rate {
    Finite { num: int, den: int },
    Unbounded,
}

impl Rate {
    /// The denominator of a fraction is positive.
    pub open spec fn wf(self) -> bool {
        self matches Rate::Finite { den, .. } ==> den > 0
    }

    /// `self <= other`.
    pub open spec fn le(self, other: Rate) -> bool {
        match (self, other) {
            (_, Rate::Unbounded) => true,
            (Rate::Unbounded, Rate::Finite { .. }) => false,
            (Rate::Finite { num: a, den: b }, Rate::Finite { num: c, den: d }) => a * d <= c * b,
        }
    }

    /// Both denote the same number.
    pub open spec fn same(self, other: Rate) -> bool {
        self.le(other) && other.le(self)
    }

    /// The arithmetic mean of the two; unbounded as soon as one of them is.
    pub open spec fn mean(self, other: Rate) -> Rate {
        match (self, other) {
            (Rate::Finite { num: a, den: b }, Rate::Finite { num: c, den: d }) => Rate::Finite {
                num: a * d + c * b,
                den: 2 * (b * d),
            },
            _ => Rate::Unbounded,
        }
    }

    /// The fraction `num / den` as a rate.
    pub open spec fn ratio(num: int, den: int) -> Rate {
        Rate::Finite { num, den }
    }
}

/// Every rate is at most itself.
pub proof fn lemma_le_reflexive(a: Rate)
    ensures
        a.le(a),
{
}

/// Of two rates, one is at most the other.
pub proof fn lemma_le_total(a: Rate, b: Rate)
    ensures
        a.le(b) || b.le(a),
{
}

/// `a <= b` and `b <= c` give `a <= c`.
pub proof fn lemma_le_transitive(a: Rate, b: Rate, c: Rate)
    requires
        a.wf(),
        b.wf(),
        c.wf(),
        a.le(b),
        b.le(c),
    ensures
        a.le(c),
{
    match (a, b, c) {
        (
            Rate::Finite { num: an, den: ad },
            Rate::Finite { num: bn, den: bd },
            Rate::Finite { num: cn, den: cd },
        ) => {
            assert(an * cd <= cn * ad) by (nonlinear_arith)
                requires
                    ad > 0,
                    bd > 0,
                    cd > 0,
                    an * bd <= bn * ad,
                    bn * cd <= cn * bd,
            {
                assert((an * bd) * cd <= (bn * ad) * cd);
                assert((bn * cd) * ad <= (cn * bd) * ad);
                assert((an * cd) * bd <= (cn * ad) * bd);
            }
        },
        _ => {},
    }
}

/// `(a * b) * (c * d)` regrouped as `(a * c) * (b * d)`.
proof fn lemma_cross_terms(a: int, b: int, c: int, d: int)
    by (nonlinear_arith)
    ensures
        (a * b) * (c * d) == (a * c) * (b * d),
{
}

/// `(a + b) * (2 * k)` written as a sum of products.
proof fn lemma_scaled_sum(a: int, b: int, k: int)
    by (nonlinear_arith)
    ensures
        (a + b) * (2 * k) == 2 * (a * k) + 2 * (b * k),
{
}

/// The mean of two rates does not change when each is replaced by a rate that denotes
/// the same number.
pub proof fn lemma_mean_respects_same(a1: Rate, b1: Rate, a2: Rate, b2: Rate)
    requires
        a1.wf(),
        b1.wf(),
        a2.wf(),
        b2.wf(),
        a1.same(a2),
        b1.same(b2),
    ensures
        a1.mean(b1).wf(),
        a1.mean(b1).same(a2.mean(b2)),
{
    match (a1, b1, a2, b2) {
        (
            Rate::Finite { num: p, den: q },
            Rate::Finite { num: r, den: s },
            Rate::Finite { num: t, den: u },
            Rate::Finite { num: v, den: w },
        ) => {
            assert(q * s > 0 && u * w > 0) by (nonlinear_arith)
                requires
                    q > 0,
                    s > 0,
                    u > 0,
                    w > 0,
            ;
            assert(p * u == t * q);
            assert(r * w == v * s);
            // left numerator times right denominator
            lemma_scaled_sum(p * s, r * q, u * w);
            lemma_cross_terms(p, s, u, w);
            lemma_cross_terms(r, q, u, w);
            // right numerator times left denominator
            lemma_scaled_sum(t * w, v * u, q * s);
            lemma_cross_terms(t, w, q, s);
            lemma_cross_terms(v, u, q, s);
            assert((p * u) * (s * w) == (t * q) * (w * s)) by (nonlinear_arith)
                requires
                    p * u == t * q,
            ;
            assert((r * u) * (q * w) == (v * q) * (u * s)) by (nonlinear_arith)
                requires
                    r * w == v * s,
            {
                assert((r * u) * (q * w) == (r * w) * (q * u));
                assert((v * q) * (u * s) == (v * s) * (q * u));
            }
            assert((p * s + r * q) * (2 * (u * w)) == (t * w + v * u) * (2 * (q * s)));
        },
        _ => {},
    }
}

/// The mean of two rates lies between them.
pub proof fn lemma_mean_between(a: Rate, b: Rate)
    requires
        a.wf(),
        b.wf(),
        a.le(b),
    ensures
        a.le(a.mean(b)),
        a.mean(b).le(b),
{
    match (a, b) {
        (Rate::Finite { num: p, den: q }, Rate::Finite { num: r, den: s }) => {
            assert(p * (2 * (q * s)) <= (p * s + r * q) * q && (p * s + r * q) * s <= r * (2 * (q
                * s))) by (nonlinear_arith)
                requires
                    q > 0,
                    s > 0,
                    p * s <= r * q,
            {
                assert(p * (2 * (q * s)) == (p * s) * q + (p * s) * q);
                assert((p * s + r * q) * q == (p * s) * q + (r * q) * q);
                assert((p * s + r * q) * s == (p * s) * s + (r * q) * s);
                assert(r * (2 * (q * s)) == (r * q) * s + (r * q) * s);
                assert((p * s) * q <= (r * q) * q);
                assert((p * s) * s <= (r * q) * s);
            }
        },
        _ => {},
    }
}

} // verus!
