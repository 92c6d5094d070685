//! Comparison of text by Unicode scalar values.

use vstd::prelude::*;
use vstd::std_specs::iter::IteratorSpec;

verus! {

/// How one text stands to another in lexicographic order.
#[derive(Clone, Copy, Debug, PartialEq, Eq, Structural)]
pub enum TextOrder {
    Before,
    Same,
    After,
}

/// Lexicographic comparison of `a` and `b` by the scalar values of their
/// characters; a proper prefix comes before the longer text.
pub open spec fn text_order(a: Seq<char>, b: Seq<char>) -> TextOrder
    decreases a.len(),
{
    if a.len() == 0 && b.len() == 0 {
        TextOrder::Same
    } else if a.len() == 0 {
        TextOrder::Before
    } else if b.len() == 0 {
        TextOrder::After
    } else if (a[0] as int) < (b[0] as int) {
        TextOrder::Before
    } else if (a[0] as int) > (b[0] as int) {
        TextOrder::After
    } else {
        text_order(a.drop_first(), b.drop_first())
    }
}

/// The scalar value of `c`.
pub fn scalar_value(c: char) -> (value: u32)
    ensures
        value as int == c as int,
{
    c as u32
}

/// Compares two texts as [`text_order`] describes.
pub fn compare_text(a: &str, b: &str) -> (order: TextOrder)
    ensures
        order == text_order(a@, b@),
{
    broadcast use vstd::string::group_string_axioms;
    let mut left = a.chars();
    let mut right = b.chars();
    loop
        invariant
            text_order(a@, b@) == text_order(left.remaining(), right.remaining()),
            left.decrease() is Some,
        decreases left.decrease()->0,
    {
        let next_left = left.next();
        let next_right = right.next();
        match (next_left, next_right) {
            (None, None) => { return TextOrder::Same; },
            (None, Some(_)) => { return TextOrder::Before; },
            (Some(_), None) => { return TextOrder::After; },
            (Some(c), Some(d)) => {
                let x = scalar_value(c);
                let y = scalar_value(d);
                if x < y {
                    return TextOrder::Before;
                } else if x > y {
                    return TextOrder::After;
                }
            },
        }
    }
}

/// Whether two texts hold the same characters.
pub fn same_text(a: &str, b: &str) -> (same: bool)
    ensures
        same == (a@ == b@),
{
    proof {
        lemma_same_iff_equal(a@, b@);
    }
    compare_text(a, b) == TextOrder::Same
}

/// Two texts compare as `Same` exactly when they are equal.
pub proof fn lemma_same_iff_equal(a: Seq<char>, b: Seq<char>)
    ensures
        text_order(a, b) == TextOrder::Same <==> a == b,
    decreases a.len(),
{
    if a.len() > 0 && b.len() > 0 {
        lemma_same_iff_equal(a.drop_first(), b.drop_first());
        if a[0] == b[0] && a.drop_first() == b.drop_first() {
            assert(a =~= seq![a[0]] + a.drop_first());
            assert(b =~= seq![b[0]] + b.drop_first());
        }
    } else if a.len() == 0 && b.len() == 0 {
        assert(a =~= b);
    }
}

/// Swapping the two texts swaps `Before` and `After`.
pub proof fn lemma_order_mirrored(a: Seq<char>, b: Seq<char>)
    ensures
        text_order(a, b) == TextOrder::Before <==> text_order(b, a) == TextOrder::After,
        text_order(a, b) == TextOrder::Same <==> text_order(b, a) == TextOrder::Same,
    decreases a.len(),
{
    if a.len() > 0 && b.len() > 0 {
        lemma_order_mirrored(a.drop_first(), b.drop_first());
    }
}

/// A text that does not come after a second, which does not come after a
/// third, does not come after the third; and it comes before the third if
/// either step is strict.
pub proof fn lemma_order_transitive(a: Seq<char>, b: Seq<char>, c: Seq<char>)
    requires
        text_order(a, b) != TextOrder::After,
        text_order(b, c) != TextOrder::After,
    ensures
        text_order(a, c) != TextOrder::After,
        text_order(a, b) == TextOrder::Before || text_order(b, c) == TextOrder::Before
            ==> text_order(a, c) == TextOrder::Before,
    decreases a.len(),
{
    if a.len() > 0 && b.len() > 0 && c.len() > 0 {
        if a[0] == b[0] && b[0] == c[0] {
            lemma_order_transitive(a.drop_first(), b.drop_first(), c.drop_first());
        }
    }
}

} // verus!
