//! Comparing two analyses figure by figure.

use vstd::prelude::*;
use crate::analysis::WordProcessor;

verus! {

/// How a figure of the first text stands to the same figure of the second.
#[derive(Clone, Copy, Debug, PartialEq, Eq, Structural)]
pub enum Relation {
    Less,
    Equal,
    Greater,
}

/// How `a` stands to `b`.
pub open spec fn relation_of(a: int, b: int) -> Relation {
    if a < b {
        Relation::Less
    } else if a == b {
        Relation::Equal
    } else {
        Relation::Greater
    }
}

/// How the ratio `a / b` stands to the ratio `c / d`, for positive `b` and `d`.
pub open spec fn ratio_relation(a: int, b: int, c: int, d: int) -> Relation {
    relation_of(a * d, c * b)
}

/// The five comparisons of two texts.
#[derive(Clone, Copy, Debug, PartialEq, Eq, Structural)]
pub struct Comparison {
    /// The average word lengths.
    pub average_length: Relation,
    /// The type-token ratios.
    pub diversity: Relation,
    pub total_words: Relation,
    pub rare_words: Relation,
    pub unique_words: Relation,
}

/// How `a` stands to `b`.
pub fn compare_counts(a: usize, b: usize) -> (relation: Relation)
    ensures
        relation == relation_of(a as int, b as int),
{
    if a < b {
        Relation::Less
    } else if a == b {
        Relation::Equal
    } else {
        Relation::Greater
    }
}

/// How `a / b` stands to `c / d`. The ratios are compared exactly, by their
/// whole parts first and then by their remainders, so that no product leaves
/// the range of the machine's numbers.
pub fn compare_ratios(a: u128, b: usize, c: u128, d: usize) -> (relation: Relation)
    requires
        b > 0,
        d > 0,
    ensures
        relation == ratio_relation(a as int, b as int, c as int, d as int),
{
    let wide_b: u128 = b as u128;
    let wide_d: u128 = d as u128;
    let whole_a = a / wide_b;
    let whole_c = c / wide_d;
    let rest_a = a % wide_b;
    let rest_c = c % wide_d;
    proof {
        assert(a == whole_a * wide_b + rest_a) by (nonlinear_arith)
            requires
                whole_a == a / wide_b,
                rest_a == a % wide_b,
                wide_b > 0,
        ;
        assert(c == whole_c * wide_d + rest_c) by (nonlinear_arith)
            requires
                whole_c == c / wide_d,
                rest_c == c % wide_d,
                wide_d > 0,
        ;
        assert(a * wide_d == whole_a * (wide_b * wide_d) + rest_a * wide_d) by (nonlinear_arith)
            requires
                a == whole_a * wide_b + rest_a,
        ;
        assert(c * wide_b == whole_c * (wide_b * wide_d) + rest_c * wide_b) by (nonlinear_arith)
            requires
                c == whole_c * wide_d + rest_c,
        ;
        assert(rest_a * wide_d < wide_b * wide_d) by (nonlinear_arith)
            requires
                rest_a < wide_b,
                wide_d > 0,
        ;
        assert(rest_c * wide_b < wide_b * wide_d) by (nonlinear_arith)
            requires
                rest_c < wide_d,
                wide_b > 0,
        ;
        assert(wide_b * wide_d <= 0xffff_ffff_ffff_ffff * 0xffff_ffff_ffff_ffff) by (nonlinear_arith)
            requires
                wide_b <= 0xffff_ffff_ffff_ffff,
                wide_d <= 0xffff_ffff_ffff_ffff,
        ;
        if whole_a < whole_c {
            assert((whole_a + 1) * (wide_b * wide_d) <= whole_c * (wide_b * wide_d))
                by (nonlinear_arith)
                requires
                    whole_a + 1 <= whole_c,
                    wide_b * wide_d >= 0,
            ;
            assert((whole_a + 1) * (wide_b * wide_d) == whole_a * (wide_b * wide_d) + wide_b
                * wide_d) by (nonlinear_arith);
        }
        if whole_c < whole_a {
            assert((whole_c + 1) * (wide_b * wide_d) <= whole_a * (wide_b * wide_d))
                by (nonlinear_arith)
                requires
                    whole_c + 1 <= whole_a,
                    wide_b * wide_d >= 0,
            ;
            assert((whole_c + 1) * (wide_b * wide_d) == whole_c * (wide_b * wide_d) + wide_b
                * wide_d) by (nonlinear_arith);
        }
    }
    if whole_a < whole_c {
        Relation::Less
    } else if whole_a > whole_c {
        Relation::Greater
    } else {
        let left = rest_a * wide_d;
        let right = rest_c * wide_b;
        if left < right {
            Relation::Less
        } else if left == right {
            Relation::Equal
        } else {
            Relation::Greater
        }
    }
}

/// The comparisons that `first` and `second` give.
pub open spec fn comparison_of(first: &WordProcessor, second: &WordProcessor) -> Comparison {
    Comparison {
        average_length: ratio_relation(
            first.total_length as int,
            first.unique_words as int,
            second.total_length as int,
            second.unique_words as int,
        ),
        diversity: ratio_relation(
            first.unique_words as int,
            first.total_words as int,
            second.unique_words as int,
            second.total_words as int,
        ),
        total_words: relation_of(first.total_words as int, second.total_words as int),
        rare_words: relation_of(first.rare_words as int, second.rare_words as int),
        unique_words: relation_of(first.words.len() as int, second.words.len() as int),
    }
}

/// Compares two analyses: average word length, type-token ratio, number of
/// words, of rare words and of distinct words. Both analyses must have words,
/// or there are no ratios to compare.
pub fn compare_reports(first: &WordProcessor, second: &WordProcessor) -> (result: Comparison)
    requires
        first.unique_words > 0,
        first.total_words > 0,
        second.unique_words > 0,
        second.total_words > 0,
    ensures
        result == comparison_of(first, second),
{
    Comparison {
        average_length: compare_ratios(
            first.total_length,
            first.unique_words,
            second.total_length,
            second.unique_words,
        ),
        diversity: compare_ratios(
            first.unique_words as u128,
            first.total_words,
            second.unique_words as u128,
            second.total_words,
        ),
        total_words: compare_counts(first.total_words, second.total_words),
        rare_words: compare_counts(first.rare_words, second.rare_words),
        unique_words: compare_counts(first.words.len(), second.words.len()),
    }
}

} // verus!
