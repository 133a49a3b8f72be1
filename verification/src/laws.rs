//! What holds of the queue operations taken together.

use vstd::prelude::*;
use crate::anchor::{
    anchor_rolled_by, anchor_stays, at_most_one_anchor, exactly_one_anchor, first_anchor,
    has_anchor, lemma_anchor_stays, lemma_first_anchor, lemma_last_anchor, spliced,
};
use crate::item::{QueueItem, QueueItemType};
use crate::view::{equal_to, fresh_entries, Enqueue, QueueView};

verus! {

/// An enqueue after the anchor leaves exactly one anchor: the new entry.
pub proof fn lemma_item_added_one_anchor<T, U, L>(
    v: QueueView<T, U, L>,
    item: QueueItemType<T, U>,
    source: Option<L>,
    by_human: bool,
)
    ensures
        exactly_one_anchor(v.item_added(item, source, by_human).items),
        v.item_added(item, source, by_human).items[v.anchor_slot()].item == item,
        v.item_added(item, source, by_human).items[v.anchor_slot()].is_anchor(),
{
    lemma_last_anchor(v.items);
}

/// A batch enqueued after the anchor leaves exactly one anchor: the entry
/// that ends the batch.
pub proof fn lemma_batch_added_one_anchor<T, U, L>(
    v: QueueView<T, U, L>,
    batch: Seq<QueueItemType<T, U>>,
    source: Option<L>,
    by_human: bool,
)
    requires
        v.items.len() + batch.len() > 0,
    ensures
        exactly_one_anchor(v.batch_added(batch, source, by_human).items),
        v.batch_added(batch, source, by_human).items[v.anchor_slot() + batch.len() - 1].is_anchor(),
{
    lemma_last_anchor(v.items);
}

/// An insert that asks for the anchor leaves exactly one anchor, the new
/// entry; one that does not adds no anchor.
pub proof fn lemma_item_inserted_anchor<T, U, L>(
    v: QueueView<T, U, L>,
    index: int,
    item: QueueItemType<T, U>,
    source: Option<L>,
    addhere: bool,
)
    requires
        0 <= index <= v.items.len(),
    ensures
        addhere ==> exactly_one_anchor(v.item_inserted(index, item, source, addhere).items),
        !addhere && at_most_one_anchor(v.items) ==> at_most_one_anchor(
            v.item_inserted(index, item, source, addhere).items,
        ),
{
    let after = v.item_inserted(index, item, source, addhere).items;
    if addhere {
        assert(after[index].is_anchor());
    }
}

/// An enqueue after the cursor keeps the anchor unique on every queue but
/// one: where the cursor is the only pending entry and is the anchor, the
/// new entry becomes a second anchor.
pub proof fn lemma_item_added_next_anchor<T, U, L>(
    v: QueueView<T, U, L>,
    item: QueueItemType<T, U>,
    source: Option<L>,
)
    requires
        at_most_one_anchor(v.items),
    ensures
        at_most_one_anchor(v.item_added_next(item, source).items) <==> !(v.items.len() == 1
            && v.items[0].is_anchor()),
{
    let after = v.item_added_next(item, source).items;
    if v.items.len() == 1 && v.items[0].is_anchor() {
        assert(after[0].is_anchor() && after[1].is_anchor());
    }
}

/// A batch enqueued after the cursor keeps the anchor unique on every queue
/// but one: where the cursor is the only pending entry and is the anchor,
/// the entry that ends a batch that is not empty becomes a second anchor.
pub proof fn lemma_batch_added_next_anchor<T, U, L>(
    v: QueueView<T, U, L>,
    batch: Seq<QueueItemType<T, U>>,
    source: Option<L>,
)
    requires
        at_most_one_anchor(v.items),
        v.items.len() + batch.len() > 0,
    ensures
        at_most_one_anchor(v.batch_added_next(batch, source).items) <==> !(v.items.len() == 1
            && v.items[0].is_anchor() && batch.len() > 0),
{
    let after = v.batch_added_next(batch, source).items;
    let at = v.cursor_slot();
    let n = batch.len() as int;
    let joined = spliced(v.items, at, fresh_entries(batch, source, true));
    assert(forall|i: int|
        0 <= i < joined.len() && (#[trigger] joined[i]).is_anchor() ==> (i < at || i >= at + n)
            && v.items[if i < at { i } else { i - n }].is_anchor());
    if v.items.len() == 1 && v.items[0].is_anchor() && n > 0 {
        assert(after[0].is_anchor() && after[n].is_anchor());
    }
}

/// Anchor uniqueness: a queue with at most one anchor has at most one after
/// each operation of a run of enqueues, as long as no operation of the run
/// meets the one queue on which it doubles the anchor.
pub proof fn lemma_enqueues_keep_anchor_unique<T, U, L>(
    v: QueueView<T, U, L>,
    ops: Seq<Enqueue<T, U, L>>,
)
    requires
        at_most_one_anchor(v.items),
        forall|k: int|
            0 <= k < ops.len() ==> (#[trigger] v.enqueued_all(ops.take(k))).admits(ops[k])
                && !v.enqueued_all(ops.take(k)).doubles_anchor(ops[k]),
    ensures
        forall|k: int|
            0 <= k <= ops.len() ==> at_most_one_anchor(
                (#[trigger] v.enqueued_all(ops.take(k))).items,
            ),
    decreases ops.len(),
{
    if ops.len() > 0 {
        let earlier = ops.drop_last();
        assert forall|k: int| 0 <= k < earlier.len() implies (#[trigger] v.enqueued_all(
            earlier.take(k),
        )).admits(earlier[k]) && !v.enqueued_all(earlier.take(k)).doubles_anchor(earlier[k]) by {
            assert(earlier.take(k) =~= ops.take(k));
        }
        lemma_enqueues_keep_anchor_unique(v, earlier);
        let w = v.enqueued_all(earlier);
        assert(earlier.take(earlier.len() as int) =~= earlier);
        lemma_enqueue_keeps_anchor_unique(w, ops.last());
        assert forall|k: int| 0 <= k <= ops.len() implies at_most_one_anchor(
            (#[trigger] v.enqueued_all(ops.take(k))).items,
        ) by {
            if k < ops.len() {
                assert(ops.take(k) =~= earlier.take(k));
            } else {
                assert(ops.take(k) =~= ops);
            }
        }
    }
}

/// One enqueue keeps the anchor unique exactly where it does not double it.
pub proof fn lemma_enqueue_keeps_anchor_unique<T, U, L>(v: QueueView<T, U, L>, op: Enqueue<T, U, L>)
    requires
        at_most_one_anchor(v.items),
        v.admits(op),
    ensures
        at_most_one_anchor(v.enqueued(op).items) <==> !v.doubles_anchor(op),
{
    match op {
        Enqueue::Item { item, source, by_human } => {
            lemma_item_added_one_anchor(v, item, source, by_human);
        },
        Enqueue::ItemNext { item, source } => {
            lemma_item_added_next_anchor(v, item, source);
        },
        Enqueue::Batch { items, source, by_human } => {
            lemma_batch_added_one_anchor(v, items, source, by_human);
        },
        Enqueue::BatchNext { items, source } => {
            lemma_batch_added_next_anchor(v, items, source);
        },
        Enqueue::Insert { index, item, source, addhere } => {
            if 0 <= index <= v.items.len() {
                lemma_item_inserted_anchor(v, index, item, source, addhere);
            }
        },
    }
}

/// Taking an entry out adds no anchor: the entry behind it can only take
/// over an anchor that leaves.
pub proof fn lemma_item_removed_anchor<T, U, L>(v: QueueView<T, U, L>, index: int)
    requires
        0 <= index < v.items.len(),
        at_most_one_anchor(v.items),
    ensures
        at_most_one_anchor(v.item_removed(index).items),
{
}

/// Keeping what equals one entry leaves exactly one anchor, the first entry
/// kept, where the queue had at most one anchor.
pub proof fn lemma_only_equal_to_anchor<T, U, L>(v: QueueView<T, U, L>, index: int)
    requires
        0 <= index < v.items.len(),
        at_most_one_anchor(v.items),
    ensures
        v.only_equal_to(index).items.len() > 0,
        exactly_one_anchor(v.only_equal_to(index).items),
        v.only_equal_to(index).items[0].is_anchor(),
{
    let s = v.items;
    let wanted = equal_to(s[index]);
    let kept = s.filter(wanted);
    s.lemma_filter_contains(wanted, index);
    let after = v.only_equal_to(index).items;
    assert(after[0].is_anchor());
    assert forall|i: int| 0 <= i < kept.len() implies #[trigger] kept[i] == s[index] by {
        s.lemma_filter_pred(wanted, i);
    }
    if s[index].is_anchor() {
        lemma_filter_of_lone_anchor(s, s[index]);
    }
}

/// Of a sequence with at most one anchor, at most one entry equals a given
/// anchor.
proof fn lemma_filter_of_lone_anchor<T, U, L>(s: Seq<QueueItem<T, U, L>>, e: QueueItem<T, U, L>)
    requires
        e.is_anchor(),
        at_most_one_anchor(s),
    ensures
        s.filter(equal_to(e)).len() <= 1,
    decreases s.len(),
{
    reveal(Seq::filter);
    if s.len() > 0 {
        let rest = s.drop_last();
        assert(at_most_one_anchor(rest));
        if s.last() == e {
            assert(forall|i: int| 0 <= i < rest.len() ==> !equal_to(e)(#[trigger] rest[i]));
            lemma_filter_of_none(rest, equal_to(e));
        } else {
            lemma_filter_of_lone_anchor(rest, e);
        }
    }
}

/// A test that no entry passes keeps nothing.
proof fn lemma_filter_of_none<T, U, L>(
    s: Seq<QueueItem<T, U, L>>,
    wanted: spec_fn(QueueItem<T, U, L>) -> bool,
)
    requires
        forall|i: int| 0 <= i < s.len() ==> !wanted(#[trigger] s[i]),
    ensures
        s.filter(wanted).len() == 0,
    decreases s.len(),
{
    reveal(Seq::filter);
    if s.len() > 0 {
        lemma_filter_of_none(s.drop_last(), wanted);
    }
}

/// Skipping ahead adds no anchor to the pending entries: an anchor passed on
/// the way is where the new cursor's anchor comes from.
pub proof fn lemma_skipped_to_anchor<T, U, L>(v: QueueView<T, U, L>, k: int)
    requires
        0 <= k < v.items.len(),
        at_most_one_anchor(v.items),
    ensures
        at_most_one_anchor(v.skipped_to(k).items),
{
    lemma_first_anchor(v.items);
}

/// A step of the cursor adds no anchor to the pending entries.
pub proof fn lemma_advanced_anchor<T, U, L>(v: QueueView<T, U, L>)
    requires
        at_most_one_anchor(v.items),
    ensures
        at_most_one_anchor(v.advanced().items),
{
}

/// A step back keeps the anchor unique unless the entry that comes back is
/// an anchor and the pending entries have one already.
pub proof fn lemma_retreated_anchor<T, U, L>(v: QueueView<T, U, L>)
    requires
        at_most_one_anchor(v.items),
        v.can_retreat(),
    ensures
        at_most_one_anchor(v.retreated().items) <==> !(v.played.last().is_anchor() && has_anchor(
            v.items,
        )),
{
    let s = v.items;
    let after = v.retreated().items;
    if v.played.last().is_anchor() && has_anchor(s) {
        let i = choose|i: int| 0 <= i < s.len() && (#[trigger] s[i]).is_anchor();
        assert(after[0].is_anchor() && after[i + 1].is_anchor());
    }
}

/// Exchanging two entries keeps the anchor unique.
pub proof fn lemma_swapped_anchor<T, U, L>(v: QueueView<T, U, L>, a: int, b: int)
    requires
        0 <= a < v.items.len(),
        0 <= b < v.items.len(),
        at_most_one_anchor(v.items),
    ensures
        at_most_one_anchor(v.swapped(a, b).items),
{
}

/// Moving an entry to another position keeps the anchor unique.
pub proof fn lemma_moved_anchor<T, U, L>(v: QueueView<T, U, L>, from: int, to: int)
    requires
        0 <= from < v.items.len(),
        0 <= to < v.items.len(),
        from != to,
        at_most_one_anchor(v.items),
    ensures
        at_most_one_anchor(v.items.remove(from).insert(to, v.items[from])),
{
}

/// Putting a copy of an entry in beside it doubles the anchor exactly where
/// that entry is the anchor.
pub proof fn lemma_copied_anchor<T, U, L>(
    v: QueueView<T, U, L>,
    at: int,
    copy: QueueItem<T, U, L>,
)
    requires
        0 <= at < v.items.len(),
        copy.state == v.items[at].state,
        at_most_one_anchor(v.items),
    ensures
        at_most_one_anchor(v.items.insert(at, copy)) <==> !v.items[at].is_anchor(),
{
    let s = v.items;
    let after = s.insert(at, copy);
    if s[at].is_anchor() {
        assert(after[at].is_anchor() && after[at + 1].is_anchor());
    }
}

/// `n` calls of `next` on a queue with at least `n` pending entries, none
/// of the first `n` a group: the first `n` entries have joined the history,
/// in the roles that `anchor_rolled_by` gives them.
pub proof fn lemma_advanced_by<T, U, L>(v: QueueView<T, U, L>, n: nat)
    requires
        n <= v.items.len(),
        forall|i: int| 0 <= i < n ==> !(#[trigger] v.items[i]).is_group(),
    ensures
        v.advanced_by(n) == (QueueView {
            items: anchor_rolled_by(v.items, n as int).skip(n as int),
            played: v.played + anchor_rolled_by(v.items, n as int).take(n as int),
            loop_: v.loop_,
            shuffle: v.shuffle,
        }),
    decreases n,
{
    let s = v.items;
    let rolled = anchor_rolled_by(s, n as int);
    lemma_first_anchor(s);
    if n == 0 {
        assert(rolled.skip(0) =~= s);
    } else {
        let m = (n - 1) as nat;
        lemma_advanced_by(v, m);
        let w = v.advanced_by(m);
        let start = if has_anchor(s) {
            first_anchor(s)
        } else {
            0
        };
        if start >= m {
            if has_anchor(s) {
                assert(w.items[first_anchor(s) - m].is_anchor());
            } else {
                assert(!has_anchor(w.items));
            }
        }
        assert(w.advanced().items =~= rolled.skip(n as int));
        assert(w.advanced().played =~= v.played + rolled.take(n as int));
    }
}

/// `n` calls of `prev` on a queue whose newest `n` history entries are no
/// groups, and whose cursor is none: those entries are pending again, in
/// front of what was pending.
pub proof fn lemma_retreated_by<T, U, L>(v: QueueView<T, U, L>, n: nat)
    requires
        n <= v.played.len(),
        forall|i: int| v.played.len() - n <= i < v.played.len() ==> !(#[trigger] v.played[i]).is_group(),
        v.items.len() > 0 ==> !v.items[0].is_group(),
    ensures
        v.retreated_by(n) == (QueueView {
            items: v.played.skip(v.played.len() - n) + v.items,
            played: v.played.take(v.played.len() - n),
            loop_: v.loop_,
            shuffle: v.shuffle,
        }),
    decreases n,
{
    let rest = v.played.len() - n;
    if n == 0 {
        assert(v.played.take(rest) =~= v.played);
    } else {
        let m = (n - 1) as nat;
        lemma_retreated_by(v, m);
        let w = v.retreated_by(m);
        assert(w.items.len() > 0 ==> !w.items[0].is_group());
        assert(w.retreated().items =~= v.played.skip(rest) + v.items);
        assert(w.retreated().played =~= v.played.take(rest));
    }
}

/// What going forward and back does in general: `n` calls of `next` and
/// then `n` calls of `prev`, on a queue with at least `n` pending entries
/// and no group among them, restore the history and the settings, and every
/// pending entry's payload, source and flag in its place; the roles are
/// those that `anchor_rolled_by` gives.
pub proof fn lemma_round_trip_rolls_anchor<T, U, L>(v: QueueView<T, U, L>, n: nat)
    requires
        n <= v.items.len(),
        forall|i: int| 0 <= i < v.items.len() ==> !(#[trigger] v.items[i]).is_group(),
    ensures
        v.advanced_by(n).retreated_by(n) == v.with_items(anchor_rolled_by(v.items, n as int)),
{
    let rolled = anchor_rolled_by(v.items, n as int);
    lemma_advanced_by(v, n);
    let w = v.advanced_by(n);
    lemma_retreated_by(w, n);
    assert(w.played.skip(w.played.len() - n) + w.items =~= rolled);
    assert(w.played.take(w.played.len() - n) =~= v.played);
}

/// Round trip: after `n` calls of `next`, `n` calls of `prev` give back the
/// queue as it was, every pending entry with its role, source and flag,
/// where the queue holds no group and the steps leave the anchor where it
/// is.
pub proof fn lemma_round_trip<T, U, L>(v: QueueView<T, U, L>, n: nat)
    requires
        n <= v.items.len(),
        forall|i: int| 0 <= i < v.items.len() ==> !(#[trigger] v.items[i]).is_group(),
        anchor_stays(v.items, n as int),
    ensures
        v.advanced_by(n).retreated_by(n) == v,
{
    lemma_round_trip_rolls_anchor(v, n);
    lemma_anchor_stays(v.items, n as int);
}

/// Where the steps do not leave the anchor where it is, the round trip
/// gives back another queue: some pending entry has changed its role.
pub proof fn lemma_round_trip_needs_anchor_to_stay<T, U, L>(v: QueueView<T, U, L>, n: nat)
    requires
        n <= v.items.len(),
        forall|i: int| 0 <= i < v.items.len() ==> !(#[trigger] v.items[i]).is_group(),
        !anchor_stays(v.items, n as int),
    ensures
        v.advanced_by(n).retreated_by(n) != v,
{
    lemma_round_trip_rolls_anchor(v, n);
    lemma_anchor_stays(v.items, n as int);
}

} // verus!
