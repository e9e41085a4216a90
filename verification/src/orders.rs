//! The orders of the reports: by text ascending, by units sold descending,
//! and by mean score descending.

use crate::ranking::{RankKey, RankOrder};
use crate::store::MAX_REVIEWS;
use crate::text::{
    is_lex_less, lemma_lex_irreflexive, lemma_lex_negatively_transitive, lemma_lex_transitive,
    lex_less,
};
use vstd::prelude::*;

verus! {

/// Ranks by text, ascending: a text ranks above what it precedes in the
/// lexicographic order. Only included candidates take part.
pub ghost struct TextOrder {
    pub text: Seq<char>,
    pub included: bool,
}

impl RankOrder for TextOrder {
    open spec fn eligible(self) -> bool {
        self.included
    }

    open spec fn above(self, other: TextOrder) -> bool {
        lex_less(self.text, other.text)
    }

    proof fn lemma_irreflexive(a: TextOrder) {
        lemma_lex_irreflexive(a.text, 0);
    }

    proof fn lemma_transitive(a: TextOrder, b: TextOrder, c: TextOrder) {
        lemma_lex_transitive(a.text, b.text, c.text, 0);
    }

    proof fn lemma_negatively_transitive(a: TextOrder, b: TextOrder, c: TextOrder) {
        lemma_lex_negatively_transitive(a.text, b.text, c.text, 0);
    }
}

/// A text to rank by, as the program holds it.
pub struct TextKey {
    pub chars: Vec<char>,
    pub included: bool,
}

impl RankKey<TextOrder> for TextKey {
    open spec fn order_key(&self) -> TextOrder {
        TextOrder { text: self.chars@, included: self.included }
    }

    fn is_eligible(&self) -> (out: bool) {
        self.included
    }

    fn is_above(&self, other: &TextKey) -> (out: bool) {
        is_lex_less(&self.chars, &other.chars)
    }
}

/// Ranks by units sold, descending. Only candidates that sold take part.
pub ghost struct SalesOrder {
    pub units: int,
}

impl RankOrder for SalesOrder {
    open spec fn eligible(self) -> bool {
        self.units > 0
    }

    open spec fn above(self, other: SalesOrder) -> bool {
        self.units > other.units
    }

    proof fn lemma_irreflexive(a: SalesOrder) {
    }

    proof fn lemma_transitive(a: SalesOrder, b: SalesOrder, c: SalesOrder) {
    }

    proof fn lemma_negatively_transitive(a: SalesOrder, b: SalesOrder, c: SalesOrder) {
    }
}

/// Units sold to rank by, as the program holds them.
pub struct SalesKey {
    pub units: i64,
}

impl RankKey<SalesOrder> for SalesKey {
    open spec fn order_key(&self) -> SalesOrder {
        SalesOrder { units: self.units as int }
    }

    fn is_eligible(&self) -> (out: bool) {
        self.units > 0
    }

    fn is_above(&self, other: &SalesKey) -> (out: bool) {
        self.units > other.units
    }
}

/// Ranks the books of one publication year by units sold, descending. A
/// book of another year, or without one, takes no part; a book of the year
/// that sold nothing does.
pub ghost struct YearOrder {
    pub units: int,
    pub in_year: bool,
}

impl RankOrder for YearOrder {
    open spec fn eligible(self) -> bool {
        self.in_year
    }

    open spec fn above(self, other: YearOrder) -> bool {
        self.units > other.units
    }

    proof fn lemma_irreflexive(a: YearOrder) {
    }

    proof fn lemma_transitive(a: YearOrder, b: YearOrder, c: YearOrder) {
    }

    proof fn lemma_negatively_transitive(a: YearOrder, b: YearOrder, c: YearOrder) {
    }
}

/// Ranks by mean score, descending, and among equal means by the number of
/// reviews, descending. The mean of `count` scores that sum to `total` is
/// compared exactly, as a fraction. Only candidates with a review take
/// part.
pub ghost struct RatingOrder {
    pub total: int,
    pub count: int,
}

impl RankOrder for RatingOrder {
    open spec fn eligible(self) -> bool {
        0 < self.count <= MAX_REVIEWS && 0 <= self.total <= 5 * self.count
    }

    open spec fn above(self, other: RatingOrder) -> bool {
        self.total * other.count > other.total * self.count || (self.total * other.count
            == other.total * self.count && self.count > other.count)
    }

    proof fn lemma_irreflexive(a: RatingOrder) {
    }

    proof fn lemma_transitive(a: RatingOrder, b: RatingOrder, c: RatingOrder) {
        lemma_cross(a, b, c);
        let x = a.total * b.count - b.total * a.count;
        let y = b.total * c.count - c.total * b.count;
        let z = a.total * c.count - c.total * a.count;
        assert(x * c.count >= 0 && (x > 0 ==> x * c.count > 0)) by (nonlinear_arith)
            requires
                x >= 0,
                c.count > 0,
        ;
        assert(y * a.count >= 0 && (y > 0 ==> y * a.count > 0)) by (nonlinear_arith)
            requires
                y >= 0,
                a.count > 0,
        ;
        assert(z * b.count > 0 ==> z > 0) by (nonlinear_arith)
            requires
                b.count > 0,
        ;
        assert(z * b.count == 0 ==> z == 0) by (nonlinear_arith)
            requires
                b.count > 0,
        ;
    }

    proof fn lemma_negatively_transitive(a: RatingOrder, b: RatingOrder, c: RatingOrder) {
        lemma_cross(a, b, c);
        let x = a.total * b.count - b.total * a.count;
        let y = b.total * c.count - c.total * b.count;
        let z = a.total * c.count - c.total * a.count;
        assert(x * c.count <= 0 && (x < 0 ==> x * c.count < 0)) by (nonlinear_arith)
            requires
                x <= 0,
                c.count > 0,
        ;
        assert(y * a.count <= 0 && (y < 0 ==> y * a.count < 0)) by (nonlinear_arith)
            requires
                y <= 0,
                a.count > 0,
        ;
        assert(z * b.count < 0 ==> z < 0) by (nonlinear_arith)
            requires
                b.count > 0,
        ;
        assert(z * b.count == 0 ==> z == 0) by (nonlinear_arith)
            requires
                b.count > 0,
        ;
    }
}

/// The difference of the means of `a` and `c`, scaled by the count of `b`,
/// is made of the differences with the mean of `b`.
proof fn lemma_cross(a: RatingOrder, b: RatingOrder, c: RatingOrder)
    ensures
        (a.total * c.count - c.total * a.count) * b.count == (a.total * b.count - b.total
            * a.count) * c.count + (b.total * c.count - c.total * b.count) * a.count,
{
    assert((a.total * c.count - c.total * a.count) * b.count == (a.total * b.count - b.total
        * a.count) * c.count + (b.total * c.count - c.total * b.count) * a.count)
        by (nonlinear_arith);
}

/// The sum and the number of scores to rank by, as the program holds
/// them.
pub struct RatingKey {
    pub total: i64,
    pub count: i64,
}

impl RankKey<RatingOrder> for RatingKey {
    open spec fn order_key(&self) -> RatingOrder {
        RatingOrder { total: self.total as int, count: self.count as int }
    }

    fn is_eligible(&self) -> (out: bool) {
        0 < self.count && self.count <= 0x7fff_ffff && 0 <= self.total && self.total <= 5
            * self.count
    }

    fn is_above(&self, other: &RatingKey) -> (out: bool) {
        proof {
            let a = self.order_key();
            let b = other.order_key();
            assert(0 <= a.total * b.count <= 0x5_0000_0000 * 0x8000_0000) by (nonlinear_arith)
                requires
                    0 <= a.total <= 0x5_0000_0000,
                    0 <= b.count <= 0x8000_0000,
            ;
            assert(0 <= b.total * a.count <= 0x5_0000_0000 * 0x8000_0000) by (nonlinear_arith)
                requires
                    0 <= b.total <= 0x5_0000_0000,
                    0 <= a.count <= 0x8000_0000,
            ;
        }
        let left: i128 = (self.total as i128) * (other.count as i128);
        let right: i128 = (other.total as i128) * (self.count as i128);
        left > right || (left == right && self.count > other.count)
    }
}

} // verus!
