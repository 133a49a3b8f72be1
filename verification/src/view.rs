//! The mathematical value of a queue, and what each operation makes of it.

use vstd::prelude::*;
use crate::anchor::{anchor_carried, anchored_at, has_anchor, last_anchor, spliced, unanchored};
use crate::item::{QueueItem, QueueItemType, QueueState};

verus! {

/// A queue as plain sequences: the pending entries with the cursor at
/// position 0, the history oldest first, and the two reserved settings.
pub struct QueueView<T, U, L> {
    pub items: Seq<QueueItem<T, U, L>>,
    pub played: Seq<QueueItem<T, U, L>>,
    pub loop_: bool,
    pub shuffle: Option<Seq<usize>>,
}

/// The entries that a batch of payloads becomes: all inert, all from `source`.
pub open spec fn fresh_entries<T, U, L>(
    batch: Seq<QueueItemType<T, U>>,
    source: Option<L>,
    by_human: bool,
) -> Seq<QueueItem<T, U, L>> {
    batch.map_values(
        |p: QueueItemType<T, U>|
            QueueItem { item: p, state: QueueState::NoState, source, by_human },
    )
}

/// The test that `e` passes and no other value does.
pub open spec fn equal_to<T, U, L>(e: QueueItem<T, U, L>) -> spec_fn(QueueItem<T, U, L>) -> bool {
    |x: QueueItem<T, U, L>| x == e
}

/// Position of the first entry of `s` that carries `payload`; `s.len()` when
/// none does.
pub open spec fn first_with_payload<T, U, L>(
    s: Seq<QueueItem<T, U, L>>,
    payload: QueueItemType<T, U>,
) -> int
    decreases s.len(),
{
    if s.len() == 0 {
        0
    } else if s[0].item == payload {
        0
    } else {
        1 + first_with_payload(s.drop_first(), payload)
    }
}

/// What `first_with_payload` finds: no entry before it carries `payload`,
/// and the entry at it does, unless it is the end of `s`.
pub proof fn lemma_first_with_payload_found<T, U, L>(
    s: Seq<QueueItem<T, U, L>>,
    payload: QueueItemType<T, U>,
)
    ensures
        0 <= first_with_payload(s, payload) <= s.len(),
        forall|j: int| 0 <= j < first_with_payload(s, payload) ==> (#[trigger] s[j]).item != payload,
        first_with_payload(s, payload) < s.len() ==> s[first_with_payload(s, payload)].item
            == payload,
    decreases s.len(),
{
    if s.len() > 0 && s[0].item != payload {
        let t = s.drop_first();
        lemma_first_with_payload_found(t, payload);
        assert forall|j: int| 0 <= j < first_with_payload(s, payload) implies (#[trigger] s[j]).item
            != payload by {
            if j > 0 {
                assert(s[j] == t[j - 1]);
            }
        }
    }
}

/// `first_with_payload` is the one position that carries `payload` with no
/// such position before it.
pub proof fn lemma_first_with_payload<T, U, L>(
    s: Seq<QueueItem<T, U, L>>,
    payload: QueueItemType<T, U>,
    k: int,
)
    requires
        0 <= k < s.len(),
        s[k].item == payload,
        forall|j: int| 0 <= j < k ==> (#[trigger] s[j]).item != payload,
    ensures
        first_with_payload(s, payload) == k,
    decreases k,
{
    if k > 0 {
        let t = s.drop_first();
        assert(forall|j: int| 0 <= j < k - 1 ==> (#[trigger] t[j]).item != payload);
        lemma_first_with_payload(t, payload, k - 1);
    }
}

impl<T, U, L> QueueView<T, U, L> {
    /// The same queue with other pending entries.
    pub open spec fn with_items(self, items: Seq<QueueItem<T, U, L>>) -> Self {
        QueueView { items, played: self.played, loop_: self.loop_, shuffle: self.shuffle }
    }

    /// The same queue with another history.
    pub open spec fn with_played(self, played: Seq<QueueItem<T, U, L>>) -> Self {
        QueueView { items: self.items, played, loop_: self.loop_, shuffle: self.shuffle }
    }

    /// Where an enqueue after the anchor lands: right behind the last anchor,
    /// behind the cursor when there is no anchor, at the front of an empty
    /// queue.
    pub open spec fn anchor_slot(self) -> int {
        if self.items.len() == 0 {
            0
        } else {
            last_anchor(self.items) + 1
        }
    }

    /// Where an enqueue after the cursor lands.
    pub open spec fn cursor_slot(self) -> int {
        if self.items.len() == 0 {
            0
        } else {
            1
        }
    }

    /// Whether an enqueue after the cursor becomes the anchor: nothing sits
    /// behind the cursor yet, or the queue has no anchor.
    pub open spec fn cursor_takes_anchor(self) -> bool {
        self.items.len() <= 1 || !has_anchor(self.items)
    }

    /// After `add_item`: every old anchor is inert, and the new entry sits
    /// in the anchor slot as the anchor.
    pub open spec fn item_added(
        self,
        item: QueueItemType<T, U>,
        source: Option<L>,
        by_human: bool,
    ) -> Self {
        self.with_items(
            unanchored(self.items).insert(
                self.anchor_slot(),
                QueueItem { item, state: QueueState::AddHere, source, by_human },
            ),
        )
    }

    /// After `add_item_next`: the new entry sits in the cursor slot, and no
    /// other entry has changed.
    pub open spec fn item_added_next(self, item: QueueItemType<T, U>, source: Option<L>) -> Self {
        let state = if self.cursor_takes_anchor() {
            QueueState::AddHere
        } else {
            QueueState::NoState
        };
        self.with_items(
            self.items.insert(
                self.cursor_slot(),
                QueueItem { item, state, source, by_human: true },
            ),
        )
    }

    /// After `add_multi`: every old anchor is inert, the batch sits in the
    /// anchor slot in the order given, and the entry that ends the batch is
    /// the anchor (with an empty batch, the entry before the slot).
    pub open spec fn batch_added(
        self,
        batch: Seq<QueueItemType<T, U>>,
        source: Option<L>,
        by_human: bool,
    ) -> Self
        recommends
            self.items.len() + batch.len() > 0,
    {
        let at = self.anchor_slot();
        let joined = spliced(unanchored(self.items), at, fresh_entries(batch, source, by_human));
        self.with_items(anchored_at(joined, at + batch.len() - 1))
    }

    /// After `add_multi_next`: the batch sits in the cursor slot in the order
    /// given; where the cursor slot takes the anchor, the entry that ends the
    /// batch is an anchor (with an empty batch, the cursor).
    pub open spec fn batch_added_next(
        self,
        batch: Seq<QueueItemType<T, U>>,
        source: Option<L>,
    ) -> Self
        recommends
            self.items.len() + batch.len() > 0,
    {
        let at = self.cursor_slot();
        let joined = spliced(self.items, at, fresh_entries(batch, source, true));
        if self.cursor_takes_anchor() {
            self.with_items(anchored_at(joined, at + batch.len() - 1))
        } else {
            self.with_items(joined)
        }
    }

    /// After `remove_item` took the entry at `index`: the entry behind it,
    /// if there is one, has taken over its role.
    pub open spec fn item_removed(self, index: int) -> Self
        recommends
            0 <= index < self.items.len(),
    {
        let heir = if index + 1 < self.items.len() {
            self.items.update(
                index + 1,
                self.items[index + 1].with_state(self.items[index].state),
            )
        } else {
            self.items
        };
        self.with_items(heir.remove(index))
    }

    /// After `insert` put a fresh entry at `index`: as the only anchor when
    /// `addhere` is set, inert among unchanged entries when not.
    pub open spec fn item_inserted(
        self,
        index: int,
        item: QueueItemType<T, U>,
        source: Option<L>,
        addhere: bool,
    ) -> Self
        recommends
            0 <= index <= self.items.len(),
    {
        if addhere {
            self.with_items(
                unanchored(self.items).insert(
                    index,
                    QueueItem { item, state: QueueState::AddHere, source, by_human: false },
                ),
            )
        } else {
            self.with_items(
                self.items.insert(
                    index,
                    QueueItem { item, state: QueueState::NoState, source, by_human: false },
                ),
            )
        }
    }

    /// After `clear_except` kept what equals the entry at `index`: those
    /// entries in their order, the first of them as the anchor.
    pub open spec fn only_equal_to(self, index: int) -> Self
        recommends
            0 <= index < self.items.len(),
    {
        let kept = self.items.filter(equal_to(self.items[index]));
        self.with_items(anchored_at(kept, 0))
    }

    /// After the cursor skipped ahead to position `k`: the entries before `k`
    /// have joined the history, and an anchor met on the way has been carried
    /// along to the new cursor.
    pub open spec fn skipped_to(self, k: int) -> Self
        recommends
            0 <= k < self.items.len(),
    {
        let carried = anchor_carried(self.items, k);
        QueueView {
            items: carried.skip(k),
            played: self.played + carried.take(k),
            loop_: self.loop_,
            shuffle: self.shuffle,
        }
    }

    /// After `swap`.
    pub open spec fn swapped(self, a: int, b: int) -> Self
        recommends
            0 <= a < self.items.len(),
            0 <= b < self.items.len(),
    {
        self.with_items(self.items.update(a, self.items[b]).update(b, self.items[a]))
    }

    /// Whether `next` can move the cursor: there is a pending entry, and the
    /// cursor is not on a group.
    pub open spec fn can_advance(self) -> bool {
        self.items.len() > 0 && !self.items[0].is_group()
    }

    /// Whether `next` moves the anchor along with the cursor: the cursor is
    /// the anchor, or there is no anchor at all.
    pub open spec fn anchor_follows_cursor(self) -> bool
        recommends
            self.items.len() > 0,
    {
        self.items[0].is_anchor() || !has_anchor(self.items)
    }

    /// The pending entries as `next` arranges them before it moves the
    /// cursor: where the anchor follows the cursor, the cursor is inert and
    /// the entry behind it, if any, is the anchor.
    pub open spec fn anchor_rolled(self) -> Seq<QueueItem<T, U, L>>
        recommends
            self.items.len() > 0,
    {
        if self.anchor_follows_cursor() {
            let calmed = self.items.update(0, self.items[0].with_state(QueueState::NoState));
            if calmed.len() > 1 {
                anchored_at(calmed, 1)
            } else {
                calmed
            }
        } else {
            self.items
        }
    }

    /// After `next`: the cursor entry has joined the history; where `next`
    /// cannot advance, nothing has changed.
    pub open spec fn advanced(self) -> Self {
        if self.can_advance() {
            QueueView {
                items: self.anchor_rolled().drop_first(),
                played: self.played.push(self.anchor_rolled()[0]),
                loop_: self.loop_,
                shuffle: self.shuffle,
            }
        } else {
            self
        }
    }

    /// Whether `prev` can move the cursor back: there is history, and
    /// neither its newest entry nor the cursor is a group.
    pub open spec fn can_retreat(self) -> bool {
        &&& self.played.len() > 0
        &&& !self.played.last().is_group()
        &&& self.items.len() > 0 ==> !self.items[0].is_group()
    }

    /// After `prev`: the newest entry of the history is the cursor again;
    /// where `prev` cannot go back, nothing has changed.
    pub open spec fn retreated(self) -> Self {
        if self.can_retreat() {
            QueueView {
                items: self.items.insert(0, self.played.last()),
                played: self.played.drop_last(),
                loop_: self.loop_,
                shuffle: self.shuffle,
            }
        } else {
            self
        }
    }

    /// After `n` calls of `next`.
    pub open spec fn advanced_by(self, n: nat) -> Self
        decreases n,
    {
        if n == 0 {
            self
        } else {
            self.advanced_by((n - 1) as nat).advanced()
        }
    }

    /// After `n` calls of `prev`.
    pub open spec fn retreated_by(self, n: nat) -> Self
        decreases n,
    {
        if n == 0 {
            self
        } else {
            self.retreated_by((n - 1) as nat).retreated()
        }
    }

    /// After `check_played`: the newest `limit` entries of the history.
    pub open spec fn history_bounded(self, limit: int) -> Self
        recommends
            0 <= limit,
    {
        if self.played.len() > limit {
            self.with_played(self.played.skip(self.played.len() - limit))
        } else {
            self
        }
    }
}

/// One enqueue operation with its arguments.
pub enum Enqueue<T, U, L> {
    /// `add_item`.
    Item { item: QueueItemType<T, U>, source: Option<L>, by_human: bool },
    /// `add_item_next`.
    ItemNext { item: QueueItemType<T, U>, source: Option<L> },
    /// `add_multi`.
    Batch { items: Seq<QueueItemType<T, U>>, source: Option<L>, by_human: bool },
    /// `add_multi_next`.
    BatchNext { items: Seq<QueueItemType<T, U>>, source: Option<L> },
    /// `insert`.
    Insert { index: int, item: QueueItemType<T, U>, source: Option<L>, addhere: bool },
}

impl<T, U, L> QueueView<T, U, L> {
    /// Whether the queue admits `op`: a batch needs an entry to end on, in
    /// the batch or in the queue.
    pub open spec fn admits(self, op: Enqueue<T, U, L>) -> bool {
        match op {
            Enqueue::Batch { items, .. } => self.items.len() + items.len() > 0,
            Enqueue::BatchNext { items, .. } => self.items.len() + items.len() > 0,
            _ => true,
        }
    }

    /// After `op`. An `insert` beyond the end changes nothing.
    pub open spec fn enqueued(self, op: Enqueue<T, U, L>) -> Self
        recommends
            self.admits(op),
    {
        match op {
            Enqueue::Item { item, source, by_human } => self.item_added(item, source, by_human),
            Enqueue::ItemNext { item, source } => self.item_added_next(item, source),
            Enqueue::Batch { items, source, by_human } => self.batch_added(items, source, by_human),
            Enqueue::BatchNext { items, source } => self.batch_added_next(items, source),
            Enqueue::Insert { index, item, source, addhere } => if 0 <= index <= self.items.len() {
                self.item_inserted(index, item, source, addhere)
            } else {
                self
            },
        }
    }

    /// After every operation of `ops`, first to last.
    pub open spec fn enqueued_all(self, ops: Seq<Enqueue<T, U, L>>) -> Self
        decreases ops.len(),
    {
        if ops.len() == 0 {
            self
        } else {
            self.enqueued_all(ops.drop_last()).enqueued(ops.last())
        }
    }

    /// Whether `op` gives this queue a second anchor: the cursor is the only
    /// pending entry and is the anchor, and `op` puts a new entry behind it
    /// that takes the anchor without releasing the old one.
    pub open spec fn doubles_anchor(self, op: Enqueue<T, U, L>) -> bool {
        &&& self.items.len() == 1
        &&& self.items[0].is_anchor()
        &&& match op {
            Enqueue::ItemNext { .. } => true,
            Enqueue::BatchNext { items, .. } => items.len() > 0,
            _ => false,
        }
    }
}

} // verus!
