//! The queue itself.

use vstd::prelude::*;
use crate::anchor::{
    anchor_carried, at_most_one_anchor, exactly_one_anchor, has_anchor, last_anchor,
    lemma_first_anchor, lemma_last_anchor, unanchored,
};
use crate::error::QueueError;
use crate::item::{structural_clone, structural_eq, QueueItem, QueueItemType, QueueState};
use crate::laws::{
    lemma_advanced_anchor, lemma_batch_added_next_anchor, lemma_batch_added_one_anchor,
    lemma_copied_anchor, lemma_item_added_next_anchor, lemma_item_added_one_anchor,
    lemma_item_inserted_anchor, lemma_item_removed_anchor, lemma_moved_anchor,
    lemma_only_equal_to_anchor, lemma_retreated_anchor, lemma_skipped_to_anchor,
    lemma_swapped_anchor,
};
use crate::view::{
    equal_to, first_with_payload, fresh_entries, lemma_first_with_payload,
    lemma_first_with_payload_found, QueueView,
};

verus! {

/// A playback queue: what is still to be played, what has been played, and
/// two settings that are kept for later use.
#[derive(Debug)]
pub struct Queue<T, U, L> {
    /// The pending entries; the entry at position 0 is the cursor.
    pub items: Vec<QueueItem<T, U, L>>,
    /// The history, oldest first.
    pub played: Vec<QueueItem<T, U, L>>,
    /// Reserved: no operation reads it.
    pub loop_: bool,
    /// Reserved: no operation reads it.
    pub shuffle: Option<Vec<usize>>,
}

impl<T, U, L> View for Queue<T, U, L> {
    type V = QueueView<T, U, L>;

    open spec fn view(&self) -> QueueView<T, U, L> {
        QueueView {
            items: self.items@,
            played: self.played@,
            loop_: self.loop_,
            shuffle: match self.shuffle {
                Some(order) => Some(order@),
                None => None,
            },
        }
    }
}

impl<T, U, L> Default for Queue<T, U, L> {
    /// An empty queue that neither loops nor shuffles.
    fn default() -> (r: Self)
        ensures
            r@ == (QueueView::<T, U, L> {
                items: Seq::empty(),
                played: Seq::empty(),
                loop_: false,
                shuffle: None,
            }),
    {
        Queue { items: Vec::new(), played: Vec::new(), loop_: false, shuffle: None }
    }
}

impl<T: Clone + PartialEq, U: Clone + PartialEq, L: Copy + PartialEq> Queue<T, U, L> {
    /// Puts every anchor back into the inert role and says where the last
    /// one sat (0 when there was none).
    fn release_anchor(&mut self) -> (i: usize)
        ensures
            final(self)@ == old(self)@.with_items(unanchored(old(self)@.items)),
            i == last_anchor(old(self)@.items),
    {
        let ghost before = self@;
        let mut i: usize = 0;
        let mut j: usize = 0;
        while j < self.items.len()
            invariant
                j <= before.items.len(),
                self@.items.len() == before.items.len(),
                forall|k: int| 0 <= k < j ==> self@.items[k] == unanchored(before.items)[k],
                forall|k: int| j <= k < before.items.len() ==> self@.items[k] == before.items[k],
                i == last_anchor(before.items.take(j as int)),
                self@.played == before.played,
                self@.loop_ == before.loop_,
                self@.shuffle == before.shuffle,
            decreases before.items.len() - j,
        {
            proof {
                assert(before.items.take(j + 1).drop_last() =~= before.items.take(j as int));
            }
            if self.items[j].state == QueueState::AddHere {
                i = j;
                self.items[j].state = QueueState::NoState;
            }
            j += 1;
        }
        proof {
            assert(before.items.take(j as int) =~= before.items);
            assert(self@.items =~= unanchored(before.items));
        }
        i
    }

    /// Whether some pending entry is the anchor.
    fn has_addhere(&self) -> (r: bool)
        ensures
            r == has_anchor(self@.items),
    {
        let mut j: usize = 0;
        while j < self.items.len()
            invariant
                j <= self@.items.len(),
                forall|k: int| 0 <= k < j ==> !(#[trigger] self@.items[k]).is_anchor(),
            decreases self@.items.len() - j,
        {
            if self.items[j].state == QueueState::AddHere {
                return true;
            }
            j += 1;
        }
        false
    }

    /// Replaces the pending entries by `tracks`, roles and all.
    pub fn set_items(&mut self, tracks: Vec<QueueItem<T, U, L>>)
        ensures
            final(self)@ == old(self)@.with_items(tracks@),
    {
        self.items = tracks;
    }

    /// Enqueues `item` right behind the anchor and makes it the anchor.
    pub fn add_item(&mut self, item: QueueItemType<T, U>, source: Option<L>, by_human: bool)
        ensures
            final(self)@ == old(self)@.item_added(item, source, by_human),
            final(self)@.items.len() == old(self)@.items.len() + 1,
            exactly_one_anchor(final(self)@.items),
    {
        proof {
            lemma_last_anchor(self@.items);
            lemma_item_added_one_anchor(self@, item, source, by_human);
        }
        let i = self.release_anchor();
        let at = if self.items.is_empty() {
            0
        } else {
            assert(i < self.items.len());
            i + 1
        };
        self.items.insert(at, QueueItem { item, state: QueueState::AddHere, source, by_human });
    }

    /// Enqueues `item` right behind the cursor, as put there by a person. It
    /// becomes the anchor where nothing sat behind the cursor or the queue
    /// had no anchor; no other entry changes.
    pub fn add_item_next(&mut self, item: QueueItemType<T, U>, source: Option<L>)
        ensures
            final(self)@ == old(self)@.item_added_next(item, source),
            final(self)@.items.len() == old(self)@.items.len() + 1,
            at_most_one_anchor(old(self)@.items) ==> (at_most_one_anchor(final(self)@.items)
                <==> !(old(self)@.items.len() == 1 && old(self)@.items[0].is_anchor())),
    {
        proof {
            if at_most_one_anchor(self@.items) {
                lemma_item_added_next_anchor(self@, item, source);
            }
        }
        let empty = self.items.is_empty();
        let state = if self.items.len() <= 1 || !self.has_addhere() {
            QueueState::AddHere
        } else {
            QueueState::NoState
        };
        let at: usize = if empty {
            0
        } else {
            1
        };
        self.items.insert(at, QueueItem { item, state, source, by_human: true });
    }

    /// Enqueues `items`, in the order given, right behind the anchor. The
    /// entry that ends the batch becomes the anchor; with an empty batch,
    /// the entry in front of the slot does. So there has to be an entry: the
    /// queue and the batch are not both empty.
    pub fn add_multi(&mut self, items: Vec<QueueItemType<T, U>>, source: Option<L>, by_human: bool)
        requires
            old(self)@.items.len() + items@.len() > 0,
        ensures
            final(self)@ == old(self)@.batch_added(items@, source, by_human),
            final(self)@.items.len() == old(self)@.items.len() + items@.len(),
            exactly_one_anchor(final(self)@.items),
    {
        let ghost before = self@;
        proof {
            lemma_batch_added_one_anchor(before, items@, source, by_human);
        }
        let ghost batch = items@;
        let ghost fresh = fresh_entries(batch, source, by_human);
        let mut rest = items;
        let n = rest.len();
        let i = self.release_anchor();
        proof {
            lemma_last_anchor(before.items);
        }
        let at = if self.items.is_empty() {
            0
        } else {
            assert(i < self.items.len());
            i + 1
        };
        while rest.len() > 0
            invariant
                rest@ == batch.take(rest@.len() as int),
                rest@.len() <= batch.len(),
                n == batch.len(),
                fresh == fresh_entries(batch, source, by_human),
                at == before.anchor_slot(),
                0 <= at <= before.items.len(),
                self@.items == unanchored(before.items).take(at as int) + fresh.skip(
                    rest@.len() as int,
                ) + unanchored(before.items).skip(at as int),
                self@.played == before.played,
                self@.loop_ == before.loop_,
                self@.shuffle == before.shuffle,
            decreases rest@.len(),
        {
            let payload = rest.pop().unwrap();
            self.items.insert(
                at,
                QueueItem { item: payload, state: QueueState::NoState, source, by_human },
            );
        }
        proof {
            assert(fresh.skip(0) =~= fresh);
            assert(self.items.len() == before.items.len() + n);
        }
        self.items[at + n - 1].state = QueueState::AddHere;
    }

    /// Enqueues `items`, in the order given, right behind the cursor, as put
    /// there by a person. Where a single entry would become the anchor, the
    /// entry that ends the batch does; with an empty batch, the cursor does.
    /// So there has to be an entry: the queue and the batch are not both
    /// empty.
    pub fn add_multi_next(&mut self, items: Vec<QueueItemType<T, U>>, source: Option<L>)
        requires
            old(self)@.items.len() + items@.len() > 0,
        ensures
            final(self)@ == old(self)@.batch_added_next(items@, source),
            final(self)@.items.len() == old(self)@.items.len() + items@.len(),
            at_most_one_anchor(old(self)@.items) ==> (at_most_one_anchor(final(self)@.items)
                <==> !(old(self)@.items.len() == 1 && old(self)@.items[0].is_anchor()
                && items@.len() > 0)),
    {
        let ghost before = self@;
        proof {
            if at_most_one_anchor(before.items) {
                lemma_batch_added_next_anchor(before, items@, source);
            }
        }
        let ghost batch = items@;
        let ghost fresh = fresh_entries(batch, source, true);
        let mut rest = items;
        let n = rest.len();
        let add_here = self.items.len() <= 1 || !self.has_addhere();
        let at: usize = if self.items.is_empty() {
            0
        } else {
            1
        };
        while rest.len() > 0
            invariant
                rest@ == batch.take(rest@.len() as int),
                rest@.len() <= batch.len(),
                n == batch.len(),
                fresh == fresh_entries(batch, source, true),
                at == before.cursor_slot(),
                self@.items == before.items.take(at as int) + fresh.skip(rest@.len() as int)
                    + before.items.skip(at as int),
                self@.played == before.played,
                self@.loop_ == before.loop_,
                self@.shuffle == before.shuffle,
            decreases rest@.len(),
        {
            let payload = rest.pop().unwrap();
            self.items.insert(
                at,
                QueueItem { item: payload, state: QueueState::NoState, source, by_human: true },
            );
        }
        proof {
            assert(fresh.skip(0) =~= fresh);
            assert(self.items.len() == before.items.len() + n);
        }
        if add_here {
            self.items[at + n - 1].state = QueueState::AddHere;
        }
    }

    /// Takes the entry at `remove_index` out of the pending entries and
    /// returns it. The entry behind it, if there is one, takes over its role.
    /// A position that does not exist is reported as an empty queue.
    pub fn remove_item(&mut self, remove_index: usize) -> (r: Result<QueueItem<T, U, L>, QueueError>)
        ensures
            remove_index >= old(self)@.items.len() ==> ({
                &&& r matches Err(QueueError::EmptyQueue)
                &&& final(self)@ == old(self)@
            }),
            remove_index < old(self)@.items.len() ==> ({
                &&& r matches Ok(taken)
                &&& taken == old(self)@.items[remove_index as int]
                &&& final(self)@ == old(self)@.item_removed(remove_index as int)
            }),
            at_most_one_anchor(old(self)@.items) ==> at_most_one_anchor(final(self)@.items),
    {
        proof {
            if remove_index < self@.items.len() && at_most_one_anchor(self@.items) {
                lemma_item_removed_anchor(self@, remove_index as int);
            }
        }
        if remove_index < self.items.len() {
            if remove_index + 1 < self.items.len() {
                let state = self.items[remove_index].state;
                self.items[remove_index + 1].state = state;
            }
            Ok(self.items.remove(remove_index))
        } else {
            Err(QueueError::EmptyQueue)
        }
    }

    /// Puts a fresh entry at `index`, which may be any position up to the
    /// end; as the anchor when `addhere` is set.
    pub fn insert(
        &mut self,
        index: usize,
        new_item: QueueItemType<T, U>,
        source: Option<L>,
        addhere: bool,
    ) -> (r: Result<(), QueueError>)
        ensures
            index > old(self)@.items.len() ==> ({
                &&& r matches Err(QueueError::OutOfBounds { index: at, len })
                &&& at == index
                &&& len == old(self)@.items.len()
                &&& final(self)@ == old(self)@
            }),
            index <= old(self)@.items.len() ==> ({
                &&& r is Ok
                &&& final(self)@ == old(self)@.item_inserted(index as int, new_item, source, addhere)
                &&& final(self)@.items.len() == old(self)@.items.len() + 1
                &&& addhere ==> exactly_one_anchor(final(self)@.items)
            }),
            !addhere && at_most_one_anchor(old(self)@.items) ==> at_most_one_anchor(
                final(self)@.items,
            ),
    {
        if index > self.items.len() {
            return Err(QueueError::OutOfBounds { index, len: self.items.len() });
        }
        proof {
            lemma_item_inserted_anchor(self@, index as int, new_item, source, addhere);
        }
        let mut entry = QueueItem::from_item_type(new_item, source);
        if addhere {
            self.release_anchor();
            entry.state = QueueState::AddHere;
        }
        self.items.insert(index, entry);
        Ok(())
    }

    /// Drops every pending entry.
    pub fn clear(&mut self)
        ensures
            final(self)@ == old(self)@.with_items(Seq::empty()),
    {
        self.items.clear();
    }

    /// Keeps the pending entries that equal the entry at `index`, in their
    /// order, and makes the first of them the anchor. Entries are compared
    /// with `==`, which has to be equality of values on all three parameters.
    pub fn clear_except(&mut self, index: usize) -> (r: Result<(), QueueError>)
        requires
            structural_eq::<T>(),
            structural_eq::<U>(),
            structural_eq::<L>(),
        ensures
            old(self)@.items.len() == 0 ==> ({
                &&& r matches Err(QueueError::EmptyQueue)
                &&& final(self)@ == old(self)@
            }),
            0 < old(self)@.items.len() <= index ==> ({
                &&& r matches Err(QueueError::OutOfBounds { index: at, len })
                &&& at == index
                &&& len == old(self)@.items.len()
                &&& final(self)@ == old(self)@
            }),
            index < old(self)@.items.len() ==> ({
                &&& r is Ok
                &&& final(self)@ == old(self)@.only_equal_to(index as int)
                &&& final(self)@.items.len() > 0
                &&& final(self)@.items[0] == old(self)@.items[index as int].with_state(
                    QueueState::AddHere,
                )
                &&& forall|i: int|
                    0 < i < final(self)@.items.len() ==> #[trigger] final(self)@.items[i]
                        == old(self)@.items[index as int]
            }),
            index < old(self)@.items.len() && at_most_one_anchor(old(self)@.items)
                ==> exactly_one_anchor(final(self)@.items),
    {
        proof {
            if index < self@.items.len() && at_most_one_anchor(self@.items) {
                lemma_only_equal_to_anchor(self@, index as int);
            }
        }
        let len = self.items.len();
        if len == 0 {
            return Err(QueueError::EmptyQueue);
        }
        if index >= len {
            return Err(QueueError::OutOfBounds { index, len });
        }
        let ghost before = self@;
        let ghost wanted = equal_to(before.items[index as int]);
        let mut target = index;
        let mut kept: usize = 0;
        let mut j: usize = 0;
        proof {
            reveal(Seq::filter);
        }
        while j < len
            invariant
                structural_eq::<T>(),
                structural_eq::<U>(),
                structural_eq::<L>(),
                wanted == equal_to(before.items[index as int]),
                index < len,
                kept <= j <= len,
                len == before.items.len(),
                self@.items.len() == len,
                self@.items.take(kept as int) == before.items.take(j as int).filter(wanted),
                forall|i: int| j <= i < len ==> self@.items[i] == before.items[i],
                target < len,
                self@.items[target as int] == before.items[index as int],
                j <= index ==> target == index,
                j > index ==> target < kept,
                self@.played == before.played,
                self@.loop_ == before.loop_,
                self@.shuffle == before.shuffle,
            decreases len - j,
        {
            let ghost seen = before.items.take(j as int);
            proof {
                assert(before.items.take(j + 1) =~= seen.push(before.items[j as int]));
                seen.lemma_filter_push(before.items[j as int], wanted);
            }
            if self.items[j] == self.items[target] {
                self.swap(kept, j);
                if j == target {
                    target = kept;
                }
                kept += 1;
            }
            j += 1;
        }
        self.items.truncate(kept);
        proof {
            assert(before.items.take(len as int) =~= before.items);
            assert forall|i: int| 0 <= i < self@.items.len() implies #[trigger] self@.items[i]
                == before.items[index as int] by {
                before.items.lemma_filter_pred(wanted, i);
            }
        }
        self.items[0].state = QueueState::AddHere;
        Ok(())
    }

    /// Drops the history.
    pub fn clear_played(&mut self)
        ensures
            final(self)@ == old(self)@.with_played(Seq::empty()),
    {
        self.played.clear();
    }

    /// Drops every pending entry and the history.
    pub fn clear_all(&mut self)
        ensures
            final(self)@ == old(self)@.with_items(Seq::empty()).with_played(Seq::empty()),
    {
        self.items.clear();
        self.played.clear();
    }

    /// Moves the cursor ahead to the first pending entry that carries the
    /// payload found at `index`. The entries passed join the history, and an
    /// anchor among them is carried along to the new cursor. Payloads are
    /// compared with `==`, which has to be equality of values on the item and
    /// the group type.
    pub fn move_to(&mut self, index: usize) -> (r: Result<(), QueueError>)
        requires
            structural_eq::<T>(),
            structural_eq::<U>(),
        ensures
            index >= old(self)@.items.len() ==> ({
                &&& r matches Err(QueueError::EmptyQueue)
                &&& final(self)@ == old(self)@
            }),
            index < old(self)@.items.len() && old(self)@.items[index as int].is_group() ==> ({
                &&& r matches Err(QueueError::Unsupported)
                &&& final(self)@ == old(self)@
            }),
            index < old(self)@.items.len() && !old(self)@.items[index as int].is_group() ==> ({
                let stop = first_with_payload(old(self)@.items, old(self)@.items[index as int].item);
                &&& r is Ok
                &&& 0 <= stop <= index
                &&& final(self)@ == old(self)@.skipped_to(stop)
            }),
            final(self)@.items.len() + final(self)@.played.len()
                == old(self)@.items.len() + old(self)@.played.len(),
            at_most_one_anchor(old(self)@.items) ==> at_most_one_anchor(final(self)@.items),
    {
        proof {
            if index < self@.items.len() {
                let stop = first_with_payload(self@.items, self@.items[index as int].item);
                lemma_first_with_payload_found(self@.items, self@.items[index as int].item);
                if at_most_one_anchor(self@.items) && stop < self@.items.len() {
                    lemma_skipped_to_anchor(self@, stop);
                }
            }
        }
        if index >= self.items.len() {
            return Err(QueueError::EmptyQueue);
        }
        if let QueueItemType::Multi(_) = self.items[index].item {
            return Err(QueueError::Unsupported);
        }
        let ghost before = self@;
        let ghost payload = self@.items[index as int].item;
        let mut target = index;
        proof {
            lemma_first_anchor(before.items);
        }
        while !(self.items[0].item == self.items[target].item)
            invariant
                structural_eq::<T>(),
                structural_eq::<U>(),
                index < before.items.len(),
                target <= index,
                payload == before.items[index as int].item,
                self@.items == anchor_carried(before.items, index - target).skip(index - target),
                self@.played == before.played + anchor_carried(before.items, index - target).take(
                    index - target,
                ),
                self@.loop_ == before.loop_,
                self@.shuffle == before.shuffle,
                forall|j: int| 0 <= j < index - target ==> (#[trigger] before.items[j]).item != payload,
            decreases target,
        {
            proof {
                lemma_first_anchor(before.items);
            }
            if self.items[0].state == QueueState::AddHere && self.items.len() > 1 {
                self.items[1].state = QueueState::AddHere;
            }
            let item = self.items.remove(0);
            self.played.push(item);
            target -= 1;
        }
        proof {
            lemma_first_with_payload(before.items, payload, index - target);
        }
        Ok(())
    }

    /// Exchanges the pending entries at `a` and `b`, both of which exist;
    /// each keeps its role.
    pub fn swap(&mut self, a: usize, b: usize)
        requires
            a < old(self)@.items.len(),
            b < old(self)@.items.len(),
        ensures
            final(self)@ == old(self)@.swapped(a as int, b as int),
            at_most_one_anchor(old(self)@.items) ==> at_most_one_anchor(final(self)@.items),
    {
        let ghost before = self@;
        proof {
            if at_most_one_anchor(before.items) {
                lemma_swapped_anchor(before, a as int, b as int);
            }
        }
        if a != b {
            // The last entry comes out to have an entry in hand, passes through
            // the two positions, and goes back to the end.
            let last = self.items.len() - 1;
            let mut held = self.items.pop().unwrap();
            if a == last {
                self.items.set_and_swap(b, &mut held);
            } else if b == last {
                self.items.set_and_swap(a, &mut held);
            } else {
                self.items.set_and_swap(a, &mut held);
                self.items.set_and_swap(b, &mut held);
                self.items.set_and_swap(a, &mut held);
            }
            self.items.push(held);
        }
        proof {
            assert(self@.items =~= before.swapped(a as int, b as int).items);
        }
    }

    /// Takes the entry at `from` out and puts it in at `to`, role and all;
    /// both positions exist. With `from == to` nothing is taken out: a clone
    /// of the entry is put in beside it.
    pub fn move_item(&mut self, from: usize, to: usize)
        requires
            from < old(self)@.items.len(),
            to < old(self)@.items.len(),
        ensures
            from != to ==> final(self)@ == old(self)@.with_items(
                old(self)@.items.remove(from as int).insert(to as int, old(self)@.items[from as int]),
            ),
            from == to ==> final(self)@ == old(self)@.with_items(
                old(self)@.items.insert(to as int, final(self)@.items[to as int]),
            ) && old(self)@.items[from as int].cloned_as(final(self)@.items[to as int]),
            from == to && structural_clone::<T>() && structural_clone::<U>() ==> final(self)@
                == old(self)@.with_items(
                old(self)@.items.insert(to as int, old(self)@.items[from as int]),
            ),
            at_most_one_anchor(old(self)@.items) ==> (at_most_one_anchor(final(self)@.items)
                <==> !(from == to && old(self)@.items[from as int].is_anchor())),
    {
        if from != to {
            proof {
                if at_most_one_anchor(self@.items) {
                    lemma_moved_anchor(self@, from as int, to as int);
                }
            }
            let item = self.items.remove(from);
            self.items.insert(to, item);
        } else {
            let item = self.items[from].clone();
            proof {
                if at_most_one_anchor(self@.items) {
                    lemma_copied_anchor(self@, to as int, item);
                }
            }
            self.items.insert(to, item);
        }
    }

    /// Moves the cursor to the next pending entry and returns that entry.
    /// The entry left behind joins the history; the anchor moves along where
    /// the cursor was the anchor or the queue had none. With the cursor on a
    /// group nothing moves.
    pub fn next(&mut self) -> (r: Result<&QueueItem<T, U, L>, QueueError>)
        ensures
            final(self)@ == old(self)@.advanced(),
            old(self)@.items.len() == 0 ==> r matches Err(QueueError::EmptyQueue),
            old(self)@.items.len() > 0 && old(self)@.items[0].is_group() ==> r matches Err(
                QueueError::Unsupported,
            ),
            old(self)@.can_advance() && old(self)@.items.len() == 1 ==> r matches Err(
                QueueError::NoNext,
            ),
            old(self)@.can_advance() && old(self)@.items.len() > 1 ==> ({
                &&& r matches Ok(cursor)
                &&& *cursor == final(self)@.items[0]
            }),
            final(self)@.items.len() + final(self)@.played.len()
                == old(self)@.items.len() + old(self)@.played.len(),
            at_most_one_anchor(old(self)@.items) ==> at_most_one_anchor(final(self)@.items),
    {
        proof {
            if at_most_one_anchor(self@.items) {
                lemma_advanced_anchor(self@);
            }
        }
        if self.items.is_empty() {
            return Err(QueueError::EmptyQueue);
        }
        if let QueueItemType::Multi(_) = self.items[0].item {
            return Err(QueueError::Unsupported);
        }
        if self.items[0].state == QueueState::AddHere || !self.has_addhere() {
            self.items[0].state = QueueState::NoState;
            if self.items.len() > 1 {
                self.items[1].state = QueueState::AddHere;
            }
        }
        let item = self.items.remove(0);
        self.played.push(item);
        if self.items.is_empty() {
            Err(QueueError::NoNext)
        } else {
            Ok(&self.items[0])
        }
    }

    /// Moves the cursor back to the entry played last and returns that entry.
    /// With a group as that entry or under the cursor nothing moves.
    pub fn prev(&mut self) -> (r: Result<&QueueItem<T, U, L>, QueueError>)
        ensures
            final(self)@ == old(self)@.retreated(),
            old(self)@.played.len() == 0 ==> r matches Err(QueueError::EmptyPlayed),
            old(self)@.played.len() > 0 && !old(self)@.can_retreat() ==> r matches Err(
                QueueError::Unsupported,
            ),
            old(self)@.can_retreat() ==> ({
                &&& r matches Ok(cursor)
                &&& *cursor == old(self)@.played.last()
                &&& *cursor == final(self)@.items[0]
            }),
            at_most_one_anchor(old(self)@.items) ==> (at_most_one_anchor(final(self)@.items)
                <==> !(old(self)@.can_retreat() && old(self)@.played.last().is_anchor()
                && has_anchor(old(self)@.items))),
    {
        proof {
            if at_most_one_anchor(self@.items) && self@.can_retreat() {
                lemma_retreated_anchor(self@);
            }
        }
        if self.played.is_empty() {
            return Err(QueueError::EmptyPlayed);
        }
        if let QueueItemType::Multi(_) = self.played[self.played.len() - 1].item {
            return Err(QueueError::Unsupported);
        }
        if !self.items.is_empty() {
            if let QueueItemType::Multi(_) = self.items[0].item {
                return Err(QueueError::Unsupported);
            }
        }
        let item = self.played.pop().unwrap();
        self.items.insert(0, item);
        Ok(&self.items[0])
    }

    /// The entry under the cursor, unless it is a group.
    pub fn current(&self) -> (r: Result<&QueueItem<T, U, L>, QueueError>)
        ensures
            self@.items.len() == 0 ==> r matches Err(QueueError::EmptyQueue),
            self@.items.len() > 0 && self@.items[0].is_group() ==> r matches Err(
                QueueError::Unsupported,
            ),
            self@.can_advance() ==> ({
                &&& r matches Ok(cursor)
                &&& *cursor == self@.items[0]
            }),
    {
        if self.items.is_empty() {
            return Err(QueueError::EmptyQueue);
        }
        if let QueueItemType::Multi(_) = self.items[0].item {
            return Err(QueueError::Unsupported);
        }
        Ok(&self.items[0])
    }

    /// Forgets the oldest history until at most `limit` entries are left.
    pub fn check_played(&mut self, limit: usize)
        ensures
            final(self)@ == old(self)@.history_bounded(limit as int),
            final(self)@.played.len() <= limit,
    {
        let ghost before = self@;
        while self.played.len() > limit
            invariant
                self@.played.len() <= before.played.len(),
                before.played.len() > limit ==> self@.played.len() >= limit,
                before.played.len() <= limit ==> self@.played.len() == before.played.len(),
                self@.played == before.played.skip(before.played.len() - self@.played.len()),
                self@.items == before.items,
                self@.loop_ == before.loop_,
                self@.shuffle == before.shuffle,
            decreases self@.played.len(),
        {
            let ghost d = before.played.len() - self@.played.len();
            self.played.remove(0);
        }
    }
}

} // verus!
