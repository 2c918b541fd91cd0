//! Stable sorting of positions by a proven total preorder, through std's
//! `sort_by`, and the message comparison in `Ordering` form.

use vstd::prelude::*;
use std::cmp::Ordering;
use crate::list::SortOrder;
use crate::model::Message;
use crate::order::{key_compare_exec, list_key_exec, message_compare};

verus! {

/// A three-way comparison over the positions `0..len` of some keyed data,
/// proven to be a total preorder.
pub trait Ranking {
    spec fn len_spec(&self) -> nat;

    /// Negative when position `a` sorts before `b`, zero on a tie.
    spec fn rank(&self, a: usize, b: usize) -> int;

    proof fn lemma_total(&self, a: usize, b: usize, c: usize)
        requires
            a < self.len_spec(),
            b < self.len_spec(),
            c < self.len_spec(),
        ensures
            self.rank(a, b) == -self.rank(b, a),
            -1 <= self.rank(a, b) <= 1,
            self.rank(a, b) <= 0 && self.rank(b, c) <= 0 ==> self.rank(a, c) <= 0,
    ;

    fn compare_at(&self, a: usize, b: usize) -> (r: i8)
        requires
            a < self.len_spec(),
            b < self.len_spec(),
        ensures
            r == self.rank(a, b),
    ;
}

/// The comparison at two positions, as `sort_by` takes it.
pub fn order_at<R: Ranking>(ctx: &R, a: usize, b: usize) -> (r: Ordering)
    requires
        a < ctx.len_spec(),
        b < ctx.len_spec(),
    ensures
        (r == Ordering::Less) == (ctx.rank(a, b) < 0),
        (r == Ordering::Equal) == (ctx.rank(a, b) == 0),
        (r == Ordering::Greater) == (ctx.rank(a, b) > 0),
{
    let c = ctx.compare_at(a, b);
    if c < 0 {
        Ordering::Less
    } else if c == 0 {
        Ordering::Equal
    } else {
        Ordering::Greater
    }
}

/// `after` is in ranking order.
pub open spec fn ranked<R: Ranking>(ctx: &R, after: Seq<usize>) -> bool {
    forall|i: int, j: int| 0 <= i < j < after.len() ==> ctx.rank(#[trigger] after[i], #[trigger] after[j]) <= 0
}

/// Ties in `after` keep the order they had in `before`.
pub open spec fn stable<R: Ranking>(ctx: &R, before: Seq<usize>, after: Seq<usize>) -> bool {
    forall|i: int, j: int|
        0 <= i < j < after.len() && ctx.rank(#[trigger] after[i], #[trigger] after[j]) == 0 ==> before.index_of(
            after[i],
        ) < before.index_of(after[j])
}

/// `after` holds exactly the positions of `before`, each once.
pub open spec fn same_positions(before: Seq<usize>, after: Seq<usize>) -> bool {
    &&& after.len() == before.len()
    &&& after.no_duplicates()
    &&& forall|x: usize| after.contains(x) <==> before.contains(x)
}

/// `after` is `before` stably sorted by the ranking.
pub open spec fn stable_sort_of<R: Ranking>(ctx: &R, before: Seq<usize>, after: Seq<usize>) -> bool {
    &&& same_positions(before, after)
    &&& ranked(ctx, after)
    &&& stable(ctx, before, after)
}

/// Sorts positions with std's `slice::sort_by`, which is documented stable:
/// the result is a permutation, in comparator order, with equal elements in
/// their original order. Its comparator is required to be a total order; the
/// ranking's own proof gives that.
#[verifier::external_body]
pub(crate) fn sort_positions<R: Ranking>(pos: &mut Vec<usize>, ctx: &R)
    requires
        old(pos)@.no_duplicates(),
        forall|i: int| 0 <= i < old(pos)@.len() ==> #[trigger] old(pos)@[i] < ctx.len_spec(),
    ensures
        stable_sort_of(ctx, old(pos)@, final(pos)@),
{
    pos.sort_by(|a, b| order_at(ctx, *a, *b));
}

/// Orders two messages by the chosen sort; ties fall back to date.
pub fn message_cmp(a: &Message, b: &Message, order: SortOrder) -> (r: Ordering)
    ensures
        (r == Ordering::Less) == (message_compare(*a, *b, order) < 0),
        (r == Ordering::Equal) == (message_compare(*a, *b, order) == 0),
        (r == Ordering::Greater) == (message_compare(*a, *b, order) > 0),
{
    let ka = list_key_exec(a, order);
    let kb = list_key_exec(b, order);
    let c = key_compare_exec(order, &ka, &kb);
    if c < 0 {
        Ordering::Less
    } else if c == 0 {
        Ordering::Equal
    } else {
        Ordering::Greater
    }
}

} // verus!
