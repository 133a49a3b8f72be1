//! Where the insertion anchor sits in a sequence of entries.

use vstd::prelude::*;
use crate::item::{QueueItem, QueueState};

verus! {

/// Some entry of `s` is an anchor.
pub open spec fn has_anchor<T, U, L>(s: Seq<QueueItem<T, U, L>>) -> bool {
    exists|i: int| 0 <= i < s.len() && (#[trigger] s[i]).is_anchor()
}

/// No two entries of `s` are anchors.
pub open spec fn at_most_one_anchor<T, U, L>(s: Seq<QueueItem<T, U, L>>) -> bool {
    forall|i: int, j: int|
        0 <= i < s.len() && 0 <= j < s.len() && (#[trigger] s[i]).is_anchor()
            && (#[trigger] s[j]).is_anchor() ==> i == j
}

/// Exactly one entry of `s` is an anchor.
pub open spec fn exactly_one_anchor<T, U, L>(s: Seq<QueueItem<T, U, L>>) -> bool {
    has_anchor(s) && at_most_one_anchor(s)
}

/// Position of the first anchor of `s`; `s.len()` when it has none.
pub open spec fn first_anchor<T, U, L>(s: Seq<QueueItem<T, U, L>>) -> int
    decreases s.len(),
{
    if s.len() == 0 {
        0
    } else if s[0].is_anchor() {
        0
    } else {
        1 + first_anchor(s.drop_first())
    }
}

/// Position of the last anchor of `s`; 0 when it has none.
pub open spec fn last_anchor<T, U, L>(s: Seq<QueueItem<T, U, L>>) -> int
    decreases s.len(),
{
    if s.len() == 0 {
        0
    } else if s.last().is_anchor() {
        s.len() - 1
    } else {
        last_anchor(s.drop_last())
    }
}

/// `s` with every anchor put back into the inert role.
pub open spec fn unanchored<T, U, L>(s: Seq<QueueItem<T, U, L>>) -> Seq<QueueItem<T, U, L>> {
    s.map_values(
        |e: QueueItem<T, U, L>|
            if e.is_anchor() {
                e.with_state(QueueState::NoState)
            } else {
                e
            },
    )
}

/// `s` with the entry at `i` made the anchor.
pub open spec fn anchored_at<T, U, L>(s: Seq<QueueItem<T, U, L>>, i: int) -> Seq<QueueItem<T, U, L>>
    recommends
        0 <= i < s.len(),
{
    s.update(i, s[i].with_state(QueueState::AddHere))
}

/// `s` with `t` put in before position `at`.
pub open spec fn spliced<T, U, L>(
    s: Seq<QueueItem<T, U, L>>,
    at: int,
    t: Seq<QueueItem<T, U, L>>,
) -> Seq<QueueItem<T, U, L>>
    recommends
        0 <= at <= s.len(),
{
    s.take(at) + t + s.skip(at)
}

/// `s` in the roles it has after the cursor has skipped ahead to position
/// `k`: the anchor is handed on from entry to entry and stays on each, so
/// every entry from the first anchor up to `k` is an anchor.
pub open spec fn anchor_carried<T, U, L>(s: Seq<QueueItem<T, U, L>>, k: int) -> Seq<
    QueueItem<T, U, L>,
> {
    Seq::new(
        s.len(),
        |i: int|
            if first_anchor(s) <= i <= k {
                s[i].with_state(QueueState::AddHere)
            } else {
                s[i]
            },
    )
}

/// `s` in the roles it has after `n` steps of the cursor. The steps before
/// the first anchor change nothing. From the first anchor on (from the
/// start, where `s` has no anchor) each step makes the entry it leaves inert
/// and hands the anchor to the next, so that it ends on the entry at `n`.
pub open spec fn anchor_rolled_by<T, U, L>(s: Seq<QueueItem<T, U, L>>, n: int) -> Seq<
    QueueItem<T, U, L>,
> {
    let start = if has_anchor(s) {
        first_anchor(s)
    } else {
        0
    };
    Seq::new(
        s.len(),
        |i: int|
            if start <= i < n {
                s[i].with_state(QueueState::NoState)
            } else if start < n && i == n {
                s[i].with_state(QueueState::AddHere)
            } else {
                s[i]
            },
    )
}

/// Whether `n` steps of the cursor leave every role of `s` as it was: there
/// is no step; or no step reaches the first anchor; or `s` has no anchor,
/// every entry is inert, and the steps go through all of `s`.
pub open spec fn anchor_stays<T, U, L>(s: Seq<QueueItem<T, U, L>>, n: int) -> bool {
    ||| n == 0
    ||| has_anchor(s) && n <= first_anchor(s)
    ||| !has_anchor(s) && n == s.len() && forall|i: int|
        0 <= i < s.len() ==> (#[trigger] s[i]).state == QueueState::NoState
}

/// What `first_anchor` finds: no anchor before it, an anchor at it, and it is
/// short of the end exactly when `s` has an anchor.
pub proof fn lemma_first_anchor<T, U, L>(s: Seq<QueueItem<T, U, L>>)
    ensures
        0 <= first_anchor(s) <= s.len(),
        forall|j: int| 0 <= j < first_anchor(s) ==> !(#[trigger] s[j]).is_anchor(),
        first_anchor(s) < s.len() ==> s[first_anchor(s)].is_anchor(),
        has_anchor(s) <==> first_anchor(s) < s.len(),
    decreases s.len(),
{
    if s.len() > 0 && !s[0].is_anchor() {
        let t = s.drop_first();
        lemma_first_anchor(t);
        assert forall|j: int| 0 <= j < first_anchor(s) implies !(#[trigger] s[j]).is_anchor() by {
            if j > 0 {
                assert(s[j] == t[j - 1]);
            }
        }
    }
}

/// What `last_anchor` finds: an anchor with none behind it, or 0 when `s`
/// has no anchor.
pub proof fn lemma_last_anchor<T, U, L>(s: Seq<QueueItem<T, U, L>>)
    ensures
        s.len() > 0 ==> 0 <= last_anchor(s) < s.len(),
        s.len() == 0 ==> last_anchor(s) == 0,
        has_anchor(s) ==> s[last_anchor(s)].is_anchor(),
        !has_anchor(s) ==> last_anchor(s) == 0,
        forall|j: int| last_anchor(s) < j < s.len() ==> !(#[trigger] s[j]).is_anchor(),
    decreases s.len(),
{
    if s.len() > 0 && !s.last().is_anchor() {
        let t = s.drop_last();
        lemma_last_anchor(t);
        assert forall|j: int| last_anchor(s) < j < s.len() implies !(#[trigger] s[j]).is_anchor() by {
            if j < s.len() - 1 {
                assert(s[j] == t[j]);
            }
        }
    }
}

/// `anchor_stays` says exactly when `anchor_rolled_by` changes nothing.
pub proof fn lemma_anchor_stays<T, U, L>(s: Seq<QueueItem<T, U, L>>, n: int)
    requires
        0 <= n <= s.len(),
    ensures
        anchor_rolled_by(s, n) == s <==> anchor_stays(s, n),
{
    lemma_first_anchor(s);
    let rolled = anchor_rolled_by(s, n);
    if anchor_stays(s, n) {
        assert(rolled =~= s);
    } else if !has_anchor(s) && n < s.len() {
        assert(rolled[n].state != s[n].state);
    }
}

} // verus!
