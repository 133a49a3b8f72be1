//! The value types held by a queue.

use vstd::prelude::*;
use vstd::std_specs::cmp::PartialEqSpec;

verus! {

/// Equality on `A` is equality of values: what `==` computes on two values
/// of `A` is what `==` says of them in a contract.
pub open spec fn structural_eq<A: PartialEq>() -> bool {
    &&& A::obeys_eq_spec()
    &&& forall|x: A, y: A| #[trigger] x.eq_spec(&y) <==> x == y
}

/// Cloning on `A` gives a value equal to the one cloned.
pub open spec fn structural_clone<A: Clone>() -> bool {
    forall|x: A, y: A| #[trigger] cloned(x, y) ==> x == y
}

/// The role of an entry within the pending sequence.
#[derive(Debug, Clone, Copy, PartialEq, Eq, Structural)]
pub enum QueueState {
    /// Reserved: no operation gives an entry this role.
    Played,
    /// Reserved: no operation gives an entry this role.
    First,
    /// The insertion anchor: an enqueue after the anchor lands right behind
    /// this entry.
    AddHere,
    /// The inert role that a fresh entry has.
    NoState,
}

/// What an entry carries: one item, or one group of items.
#[derive(Debug)]
#[non_exhaustive]
pub enum QueueItemType<T, U> {
    /// One item.
    Single(T),
    /// A group that stands in the queue as one entry.
    Multi(U),
}

impl<T: Clone, U: Clone> QueueItemType<T, U> {
    /// `copy` is what cloning this payload may give: the same variant, around
    /// a clone of what it holds.
    pub open spec fn cloned_as(self, copy: Self) -> bool {
        match (self, copy) {
            (QueueItemType::Single(a), QueueItemType::Single(b)) => cloned(a, b),
            (QueueItemType::Multi(a), QueueItemType::Multi(b)) => cloned(a, b),
            _ => false,
        }
    }
}

impl<T: Clone, U: Clone> Clone for QueueItemType<T, U> {
    fn clone(&self) -> (r: Self)
        ensures
            self.cloned_as(r),
    {
        match self {
            QueueItemType::Single(a) => QueueItemType::Single(a.clone()),
            QueueItemType::Multi(a) => QueueItemType::Multi(a.clone()),
        }
    }
}

impl<T: PartialEq, U: PartialEq> PartialEq for QueueItemType<T, U> {
    /// Two payloads are equal when they are the same variant around equal
    /// values.
    fn eq(&self, other: &Self) -> (r: bool) {
        match (self, other) {
            (QueueItemType::Single(a), QueueItemType::Single(b)) => a == b,
            (QueueItemType::Multi(a), QueueItemType::Multi(b)) => a == b,
            _ => false,
        }
    }
}

impl<T: PartialEq, U: PartialEq> vstd::std_specs::cmp::PartialEqSpecImpl for QueueItemType<T, U> {
    open spec fn obeys_eq_spec() -> bool {
        T::obeys_eq_spec() && U::obeys_eq_spec()
    }

    open spec fn eq_spec(&self, other: &Self) -> bool {
        match (*self, *other) {
            (QueueItemType::Single(a), QueueItemType::Single(b)) => a.eq_spec(&b),
            (QueueItemType::Multi(a), QueueItemType::Multi(b)) => a.eq_spec(&b),
            _ => false,
        }
    }
}

/// One entry of a queue: a payload, its role, where it came from, and whether
/// a person put it there.
#[derive(Debug)]
#[non_exhaustive]
pub struct QueueItem<T, U, L> {
    /// What the entry carries.
    pub item: QueueItemType<T, U>,
    /// The entry's role among the pending entries.
    pub state: QueueState,
    /// Where the entry came from, if that is known.
    pub source: Option<L>,
    /// Whether a person, rather than a program, enqueued the entry.
    pub by_human: bool,
}

impl<T: Clone, U: Clone, L: Copy> QueueItem<T, U, L> {
    /// `copy` is what cloning this entry may give: a clone of the payload in
    /// the same role, from the same source, with the same flag.
    pub open spec fn cloned_as(self, copy: Self) -> bool {
        &&& self.item.cloned_as(copy.item)
        &&& copy.state == self.state
        &&& copy.source == self.source
        &&& copy.by_human == self.by_human
    }
}

impl<T: Clone, U: Clone, L: Copy> Clone for QueueItem<T, U, L> {
    fn clone(&self) -> (r: Self)
        ensures
            self.cloned_as(r),
    {
        QueueItem {
            item: self.item.clone(),
            state: self.state,
            source: self.source,
            by_human: self.by_human,
        }
    }
}

impl<T: PartialEq, U: PartialEq, L: PartialEq> PartialEq for QueueItem<T, U, L> {
    /// Two entries are equal when payload, role, source and flag all are.
    fn eq(&self, other: &Self) -> (r: bool) {
        self.item == other.item && self.state == other.state && self.source == other.source
            && self.by_human == other.by_human
    }
}

impl<T: PartialEq, U: PartialEq, L: PartialEq> vstd::std_specs::cmp::PartialEqSpecImpl for QueueItem<T, U, L> {
    open spec fn obeys_eq_spec() -> bool {
        T::obeys_eq_spec() && U::obeys_eq_spec() && L::obeys_eq_spec()
    }

    open spec fn eq_spec(&self, other: &Self) -> bool {
        &&& PartialEqSpec::eq_spec(&self.item, &other.item)
        &&& self.state == other.state
        &&& PartialEqSpec::eq_spec(&self.source, &other.source)
        &&& self.by_human == other.by_human
    }
}

impl<T, U, L> QueueItem<T, U, L> {
    /// Whether this entry is the insertion anchor.
    pub open spec fn is_anchor(self) -> bool {
        self.state == QueueState::AddHere
    }

    /// Whether this entry carries a group rather than one item.
    pub open spec fn is_group(self) -> bool {
        self.item is Multi
    }

    /// The same entry in another role.
    pub open spec fn with_state(self, state: QueueState) -> Self {
        QueueItem { item: self.item, state, source: self.source, by_human: self.by_human }
    }

    /// A fresh entry: no role yet, not enqueued by a person.
    pub fn from_item_type(item: QueueItemType<T, U>, source: Option<L>) -> (r: Self)
        ensures
            r == (QueueItem { item, state: QueueState::NoState, source, by_human: false }),
    {
        QueueItem { item, state: QueueState::NoState, source, by_human: false }
    }
}

} // verus!
