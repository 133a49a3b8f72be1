use play_queue::{Queue, QueueError, QueueItem, QueueItemType, QueueState};
use play_queue::QueueState::{AddHere, NoState};

type Track = &'static str;
type Album = Vec<&'static str>;
type Q = Queue<Track, Album, u8>;

fn item(name: Track, state: QueueState) -> QueueItem<Track, Album, u8> {
    let mut e = QueueItem::from_item_type(QueueItemType::Single(name), None);
    e.state = state;
    e
}

fn pending(entries: Vec<QueueItem<Track, Album, u8>>) -> Q {
    let mut q = Q::default();
    q.set_items(entries);
    q
}

fn pending_roles(q: &Q) -> Vec<(Track, QueueState)> {
    q.items
        .iter()
        .map(|e| match &e.item {
            QueueItemType::Single(name) => (*name, e.state),
            _ => ("<group>", e.state),
        })
        .collect()
}

fn history_names(q: &Q) -> Vec<Track> {
    q.played
        .iter()
        .map(|e| match &e.item {
            QueueItemType::Single(name) => *name,
            _ => "<group>",
        })
        .collect()
}

#[test]
fn set_items_replaces_the_pending_entries() {
    let mut q = pending(vec![item("A", AddHere)]);
    q.set_items(vec![item("X", NoState), item("Y", QueueState::First)]);
    assert_eq!(pending_roles(&q), vec![("X", NoState), ("Y", QueueState::First)]);
    q.set_items(vec![]);
    assert!(q.items.is_empty());
}

#[test]
fn remove_item_hands_the_role_to_the_entry_behind() {
    let mut q = pending(vec![item("A", NoState), item("B", AddHere), item("C", NoState)]);
    assert_eq!(q.remove_item(1), Ok(item("B", AddHere)));
    assert_eq!(pending_roles(&q), vec![("A", NoState), ("C", AddHere)]);
}

#[test]
fn remove_item_in_front_of_the_anchor_takes_the_anchor_away() {
    let mut q = pending(vec![item("A", NoState), item("B", AddHere)]);
    assert_eq!(q.remove_item(0), Ok(item("A", NoState)));
    assert_eq!(pending_roles(&q), vec![("B", NoState)]);
}

#[test]
fn remove_item_at_the_end_changes_no_other_entry() {
    let mut q = pending(vec![item("A", NoState), item("B", AddHere)]);
    assert_eq!(q.remove_item(1), Ok(item("B", AddHere)));
    assert_eq!(pending_roles(&q), vec![("A", NoState)]);
    assert_eq!(q.remove_item(0), Ok(item("A", NoState)));
    assert!(q.items.is_empty());
}

#[test]
fn remove_item_at_the_length_reports_an_empty_queue() {
    let mut q = Q::default();
    assert_eq!(q.remove_item(0), Err(QueueError::EmptyQueue));

    let mut q = pending(vec![item("A", NoState), item("B", AddHere)]);
    assert_eq!(q.remove_item(2), Err(QueueError::EmptyQueue));
    assert_eq!(q.remove_item(7), Err(QueueError::EmptyQueue));
    assert_eq!(pending_roles(&q), vec![("A", NoState), ("B", AddHere)]);
}

#[test]
fn clear_drops_the_pending_entries_only() {
    let mut q = pending(vec![item("A", NoState), item("B", AddHere), item("C", NoState)]);
    assert!(q.next().is_ok());
    q.clear();
    assert!(q.items.is_empty());
    assert_eq!(history_names(&q), vec!["A"]);
}

#[test]
fn clear_played_drops_the_history_only() {
    let mut q = pending(vec![item("A", NoState), item("B", AddHere), item("C", NoState)]);
    assert!(q.next().is_ok());
    q.clear_played();
    assert!(q.played.is_empty());
    assert_eq!(pending_roles(&q), vec![("B", AddHere), ("C", NoState)]);
}

#[test]
fn clear_all_drops_both() {
    let mut q = pending(vec![item("A", NoState), item("B", AddHere), item("C", NoState)]);
    assert!(q.next().is_ok());
    q.clear_all();
    assert!(q.items.is_empty());
    assert!(q.played.is_empty());
}

#[test]
fn clear_except_keeps_every_equal_entry() {
    let mut q = pending(vec![
        item("A", NoState),
        item("B", AddHere),
        item("A", NoState),
        item("C", NoState),
        item("A", NoState),
    ]);
    assert_eq!(q.clear_except(2), Ok(()));
    assert_eq!(pending_roles(&q), vec![("A", AddHere), ("A", NoState), ("A", NoState)]);
}

#[test]
fn clear_except_tells_entries_apart_by_role() {
    let mut q = pending(vec![item("A", NoState), item("B", NoState), item("A", AddHere)]);
    assert_eq!(q.clear_except(0), Ok(()));
    assert_eq!(pending_roles(&q), vec![("A", AddHere)]);

    let mut q = pending(vec![item("A", NoState), item("B", NoState), item("C", NoState)]);
    assert_eq!(q.clear_except(1), Ok(()));
    assert_eq!(pending_roles(&q), vec![("B", AddHere)]);
}

#[test]
fn clear_except_tells_entries_apart_by_source_and_flag() {
    let mut tagged = item("A", NoState);
    tagged.source = Some(1);
    let mut human = item("A", NoState);
    human.by_human = true;
    let mut q = pending(vec![item("A", NoState), tagged, human, item("A", NoState)]);
    assert_eq!(q.clear_except(3), Ok(()));
    assert_eq!(q.items, vec![item("A", AddHere), item("A", NoState)]);
}

#[test]
fn clear_except_leaves_the_history_alone() {
    let mut q = pending(vec![item("A", NoState), item("B", NoState), item("C", AddHere)]);
    assert!(q.next().is_ok());
    assert_eq!(q.clear_except(1), Ok(()));
    assert_eq!(pending_roles(&q), vec![("C", AddHere)]);
    assert_eq!(history_names(&q), vec!["A"]);
}

#[test]
fn clear_except_rejects_what_is_not_there() {
    let mut q = Q::default();
    assert_eq!(q.clear_except(0), Err(QueueError::EmptyQueue));
    assert_eq!(q.clear_except(3), Err(QueueError::EmptyQueue));

    let mut q = pending(vec![item("A", NoState), item("B", AddHere)]);
    assert_eq!(q.clear_except(2), Err(QueueError::OutOfBounds { index: 2, len: 2 }));
    assert_eq!(pending_roles(&q), vec![("A", NoState), ("B", AddHere)]);
}

#[test]
fn swap_exchanges_two_entries_with_their_roles() {
    let mut q = pending(vec![item("A", AddHere), item("B", NoState), item("C", NoState)]);
    q.swap(0, 2);
    assert_eq!(pending_roles(&q), vec![("C", NoState), ("B", NoState), ("A", AddHere)]);
    q.swap(1, 0);
    assert_eq!(pending_roles(&q), vec![("B", NoState), ("C", NoState), ("A", AddHere)]);
    q.swap(1, 1);
    assert_eq!(pending_roles(&q), vec![("B", NoState), ("C", NoState), ("A", AddHere)]);
}

#[test]
fn move_item_takes_out_then_puts_in() {
    let mut q = pending(vec![
        item("A", AddHere),
        item("B", NoState),
        item("C", NoState),
        item("D", NoState),
    ]);
    q.move_item(0, 2);
    assert_eq!(
        pending_roles(&q),
        vec![("B", NoState), ("C", NoState), ("A", AddHere), ("D", NoState)]
    );
    q.move_item(3, 1);
    assert_eq!(
        pending_roles(&q),
        vec![("B", NoState), ("D", NoState), ("C", NoState), ("A", AddHere)]
    );
    q.move_item(0, 3);
    assert_eq!(
        pending_roles(&q),
        vec![("D", NoState), ("C", NoState), ("A", AddHere), ("B", NoState)]
    );
}

#[test]
fn move_item_onto_itself_puts_in_a_copy() {
    let mut q = pending(vec![item("A", NoState), item("B", AddHere), item("C", NoState)]);
    q.move_item(1, 1);
    assert_eq!(
        pending_roles(&q),
        vec![("A", NoState), ("B", AddHere), ("B", AddHere), ("C", NoState)]
    );
}

#[test]
fn check_played_keeps_the_newest_entries() {
    let mut q = pending(vec![
        item("A", NoState),
        item("B", NoState),
        item("C", NoState),
        item("D", NoState),
        item("E", AddHere),
    ]);
    for _ in 0..4 {
        assert!(q.next().is_ok());
    }
    assert_eq!(history_names(&q), vec!["A", "B", "C", "D"]);
    q.check_played(10);
    assert_eq!(history_names(&q), vec!["A", "B", "C", "D"]);
    q.check_played(4);
    assert_eq!(history_names(&q), vec!["A", "B", "C", "D"]);
    q.check_played(2);
    assert_eq!(history_names(&q), vec!["C", "D"]);
    assert_eq!(pending_roles(&q), vec![("E", AddHere)]);
    q.check_played(0);
    assert!(q.played.is_empty());
    q.check_played(0);
    assert!(q.played.is_empty());
}

#[test]
fn the_reserved_settings_stay_as_they_are() {
    let mut q = pending(vec![item("A", NoState), item("B", AddHere), item("C", NoState)]);
    q.loop_ = true;
    q.shuffle = Some(vec![2, 0, 1]);
    q.add_item(QueueItemType::Single("D"), None, false);
    q.add_item_next(QueueItemType::Single("E"), None);
    q.add_multi(vec![QueueItemType::Single("F")], None, false);
    q.add_multi_next(vec![QueueItemType::Single("G")], None);
    assert_eq!(q.insert(0, QueueItemType::Single("H"), None, true), Ok(()));
    assert!(q.remove_item(1).is_ok());
    assert!(q.next().is_ok());
    assert!(q.prev().is_ok());
    assert_eq!(q.move_to(2), Ok(()));
    q.swap(0, 1);
    q.move_item(0, 2);
    q.check_played(1);
    assert_eq!(q.clear_except(0), Ok(()));
    q.clear_played();
    q.clear();
    q.clear_all();
    assert!(q.loop_);
    assert_eq!(q.shuffle, Some(vec![2, 0, 1]));
}
