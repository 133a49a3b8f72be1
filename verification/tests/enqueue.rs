use play_queue::{Queue, QueueError, QueueItem, QueueItemType, QueueState};
use play_queue::QueueState::{AddHere, NoState};

type Track = &'static str;
type Album = Vec<&'static str>;
type Q = Queue<Track, Album, u8>;

fn single(name: Track) -> QueueItemType<Track, Album> {
    QueueItemType::Single(name)
}

fn entry(name: Track, state: QueueState) -> QueueItem<Track, Album, u8> {
    let mut e = QueueItem::from_item_type(single(name), None);
    e.state = state;
    e
}

fn queue_of(entries: Vec<QueueItem<Track, Album, u8>>) -> Q {
    let mut q = Q::default();
    q.set_items(entries);
    q
}

fn roles(q: &Q) -> Vec<(Track, QueueState)> {
    q.items
        .iter()
        .map(|e| match &e.item {
            QueueItemType::Single(name) => (*name, e.state),
            _ => ("<group>", e.state),
        })
        .collect()
}

fn anchors(q: &Q) -> usize {
    q.items.iter().filter(|e| e.state == AddHere).count()
}

#[test]
fn add_item_to_an_empty_queue_makes_the_anchor() {
    let mut q = Q::default();
    q.add_item(single("A"), Some(4), true);
    assert_eq!(q.items.len(), 1);
    assert_eq!(q.items[0].item, single("A"));
    assert_eq!(q.items[0].state, AddHere);
    assert_eq!(q.items[0].source, Some(4));
    assert!(q.items[0].by_human);
    assert!(q.played.is_empty());
}

#[test]
fn add_item_lands_behind_the_anchor_and_takes_it() {
    let mut q = queue_of(vec![entry("A", NoState), entry("B", AddHere), entry("C", NoState)]);
    q.add_item(single("D"), None, false);
    assert_eq!(roles(&q), vec![("A", NoState), ("B", NoState), ("D", AddHere), ("C", NoState)]);
    assert!(!q.items[2].by_human);
    q.add_item(single("E"), None, false);
    assert_eq!(
        roles(&q),
        vec![("A", NoState), ("B", NoState), ("D", NoState), ("E", AddHere), ("C", NoState)]
    );
}

#[test]
fn add_item_without_an_anchor_lands_behind_the_cursor() {
    let mut q = queue_of(vec![entry("A", NoState), entry("B", NoState)]);
    q.add_item(single("C"), None, false);
    assert_eq!(roles(&q), vec![("A", NoState), ("C", AddHere), ("B", NoState)]);
}

#[test]
fn add_item_releases_every_anchor_and_goes_behind_the_last() {
    let mut q = queue_of(vec![entry("A", AddHere), entry("B", AddHere), entry("C", NoState)]);
    q.add_item(single("D"), None, false);
    assert_eq!(roles(&q), vec![("A", NoState), ("B", NoState), ("D", AddHere), ("C", NoState)]);
}

#[test]
fn add_item_leaves_other_roles_alone() {
    let mut q = queue_of(vec![entry("A", QueueState::First), entry("B", QueueState::Played)]);
    q.add_item(single("C"), None, false);
    assert_eq!(
        roles(&q),
        vec![("A", QueueState::First), ("C", AddHere), ("B", QueueState::Played)]
    );
}

#[test]
fn add_item_next_to_an_empty_queue_makes_the_anchor() {
    let mut q = Q::default();
    q.add_item_next(single("C"), Some(9));
    assert_eq!(roles(&q), vec![("C", AddHere)]);
    assert!(q.items[0].by_human);
    assert_eq!(q.items[0].source, Some(9));
}

#[test]
fn add_item_next_leaves_an_anchor_further_back_alone() {
    let mut q = queue_of(vec![entry("A", NoState), entry("B", AddHere)]);
    q.add_item_next(single("C"), None);
    assert_eq!(roles(&q), vec![("A", NoState), ("C", NoState), ("B", AddHere)]);
    assert!(q.items[1].by_human);
    q.add_item_next(single("D"), None);
    assert_eq!(roles(&q), vec![("A", NoState), ("D", NoState), ("C", NoState), ("B", AddHere)]);
}

#[test]
fn add_item_next_takes_the_anchor_where_there_is_none() {
    let mut q = queue_of(vec![entry("A", NoState), entry("B", NoState)]);
    q.add_item_next(single("C"), None);
    assert_eq!(roles(&q), vec![("A", NoState), ("C", AddHere), ("B", NoState)]);
}

#[test]
fn add_item_next_behind_a_lone_anchor_makes_a_second_anchor() {
    let mut q = queue_of(vec![entry("A", AddHere)]);
    q.add_item_next(single("C"), None);
    assert_eq!(roles(&q), vec![("A", AddHere), ("C", AddHere)]);
    assert_eq!(anchors(&q), 2);
}

#[test]
fn add_item_next_behind_a_lone_inert_entry_takes_the_anchor() {
    let mut q = queue_of(vec![entry("A", NoState)]);
    q.add_item_next(single("C"), None);
    assert_eq!(roles(&q), vec![("A", NoState), ("C", AddHere)]);
}

#[test]
fn add_multi_keeps_the_order_and_anchors_the_last() {
    let mut q = Q::default();
    q.add_multi(vec![single("X"), single("Y"), single("Z")], Some(2), true);
    assert_eq!(roles(&q), vec![("X", NoState), ("Y", NoState), ("Z", AddHere)]);
    assert!(q.items.iter().all(|e| e.by_human && e.source == Some(2)));

    let mut q = queue_of(vec![entry("A", NoState), entry("B", AddHere), entry("C", NoState)]);
    q.add_multi(vec![single("X"), single("Y")], None, false);
    assert_eq!(
        roles(&q),
        vec![("A", NoState), ("B", NoState), ("X", NoState), ("Y", AddHere), ("C", NoState)]
    );
    assert!(!q.items[2].by_human && !q.items[3].by_human);
}

#[test]
fn add_multi_without_an_anchor_lands_behind_the_cursor() {
    let mut q = queue_of(vec![entry("A", NoState), entry("B", NoState)]);
    q.add_multi(vec![single("X"), single("Y")], None, false);
    assert_eq!(roles(&q), vec![("A", NoState), ("X", NoState), ("Y", AddHere), ("B", NoState)]);
}

#[test]
fn add_multi_of_nothing_anchors_the_entry_before_the_slot() {
    let mut q = queue_of(vec![entry("A", NoState), entry("B", AddHere), entry("C", NoState)]);
    q.add_multi(vec![], None, false);
    assert_eq!(roles(&q), vec![("A", NoState), ("B", AddHere), ("C", NoState)]);

    let mut q = queue_of(vec![entry("A", NoState), entry("B", NoState)]);
    q.add_multi(vec![], None, false);
    assert_eq!(roles(&q), vec![("A", AddHere), ("B", NoState)]);

    let mut q = queue_of(vec![entry("A", AddHere), entry("B", AddHere)]);
    q.add_multi(vec![], None, false);
    assert_eq!(roles(&q), vec![("A", NoState), ("B", AddHere)]);
}

#[test]
fn add_multi_next_keeps_the_order_behind_the_cursor() {
    let mut q = Q::default();
    q.add_multi_next(vec![single("X"), single("Y"), single("Z")], Some(5));
    assert_eq!(roles(&q), vec![("X", NoState), ("Y", NoState), ("Z", AddHere)]);
    assert!(q.items.iter().all(|e| e.by_human && e.source == Some(5)));

    let mut q = queue_of(vec![entry("A", NoState), entry("B", AddHere)]);
    q.add_multi_next(vec![single("X"), single("Y")], None);
    assert_eq!(roles(&q), vec![("A", NoState), ("X", NoState), ("Y", NoState), ("B", AddHere)]);
    assert!(q.items[1].by_human && q.items[2].by_human && !q.items[3].by_human);
}

#[test]
fn add_multi_next_anchors_the_last_where_there_is_no_anchor() {
    let mut q = queue_of(vec![entry("A", NoState), entry("B", NoState)]);
    q.add_multi_next(vec![single("X"), single("Y")], None);
    assert_eq!(roles(&q), vec![("A", NoState), ("X", NoState), ("Y", AddHere), ("B", NoState)]);
}

#[test]
fn add_multi_next_behind_a_lone_anchor_makes_a_second_anchor() {
    let mut q = queue_of(vec![entry("A", AddHere)]);
    q.add_multi_next(vec![single("X"), single("Y")], None);
    assert_eq!(roles(&q), vec![("A", AddHere), ("X", NoState), ("Y", AddHere)]);
}

#[test]
fn add_multi_next_of_nothing_anchors_the_cursor_where_it_would_take_the_anchor() {
    let mut q = queue_of(vec![entry("A", NoState), entry("B", NoState)]);
    q.add_multi_next(vec![], None);
    assert_eq!(roles(&q), vec![("A", AddHere), ("B", NoState)]);

    let mut q = queue_of(vec![entry("A", NoState), entry("B", AddHere)]);
    q.add_multi_next(vec![], None);
    assert_eq!(roles(&q), vec![("A", NoState), ("B", AddHere)]);

    let mut q = queue_of(vec![entry("A", AddHere)]);
    q.add_multi_next(vec![], None);
    assert_eq!(roles(&q), vec![("A", AddHere)]);
}

#[test]
fn insert_beyond_the_end_is_out_of_bounds() {
    let mut q = Q::default();
    assert_eq!(
        q.insert(1, single("X"), None, true),
        Err(QueueError::OutOfBounds { index: 1, len: 0 })
    );
    assert!(q.items.is_empty());

    let mut q = queue_of(vec![entry("A", AddHere), entry("B", NoState)]);
    assert_eq!(
        q.insert(3, single("X"), None, false),
        Err(QueueError::OutOfBounds { index: 3, len: 2 })
    );
    assert_eq!(roles(&q), vec![("A", AddHere), ("B", NoState)]);
}

#[test]
fn insert_puts_an_inert_entry_where_asked() {
    let mut q = Q::default();
    assert_eq!(q.insert(0, single("X"), Some(1), false), Ok(()));
    assert_eq!(roles(&q), vec![("X", NoState)]);
    assert!(!q.items[0].by_human);
    assert_eq!(q.items[0].source, Some(1));

    let mut q = queue_of(vec![entry("A", AddHere), entry("B", NoState)]);
    assert_eq!(q.insert(1, single("X"), None, false), Ok(()));
    assert_eq!(roles(&q), vec![("A", AddHere), ("X", NoState), ("B", NoState)]);
    assert_eq!(q.insert(3, single("Y"), None, false), Ok(()));
    assert_eq!(
        roles(&q),
        vec![("A", AddHere), ("X", NoState), ("B", NoState), ("Y", NoState)]
    );
}

#[test]
fn insert_as_anchor_releases_the_old_anchor() {
    let mut q = queue_of(vec![entry("A", AddHere), entry("B", NoState)]);
    assert_eq!(q.insert(1, single("X"), None, true), Ok(()));
    assert_eq!(roles(&q), vec![("A", NoState), ("X", AddHere), ("B", NoState)]);
    assert!(!q.items[1].by_human);
    assert_eq!(q.insert(0, single("Y"), None, true), Ok(()));
    assert_eq!(
        roles(&q),
        vec![("Y", AddHere), ("A", NoState), ("X", NoState), ("B", NoState)]
    );
}

#[test]
fn enqueues_keep_a_single_anchor() {
    let mut q = Q::default();
    q.add_item(single("A"), None, false);
    assert_eq!(anchors(&q), 1);
    q.add_item(single("B"), None, true);
    assert_eq!(anchors(&q), 1);
    q.add_item_next(single("C"), None);
    assert_eq!(anchors(&q), 1);
    q.add_multi(vec![single("D"), single("E")], None, false);
    assert_eq!(anchors(&q), 1);
    q.add_multi_next(vec![single("F"), single("G")], None);
    assert_eq!(anchors(&q), 1);
    assert_eq!(q.insert(2, single("H"), None, false), Ok(()));
    assert_eq!(anchors(&q), 1);
    assert_eq!(q.insert(0, single("I"), None, true), Ok(()));
    assert_eq!(anchors(&q), 1);
    q.add_item_next(single("J"), None);
    assert_eq!(anchors(&q), 1);
    assert_eq!(
        roles(&q),
        vec![
            ("I", AddHere),
            ("J", NoState),
            ("A", NoState),
            ("F", NoState),
            ("H", NoState),
            ("G", NoState),
            ("C", NoState),
            ("B", NoState),
            ("D", NoState),
            ("E", NoState),
        ]
    );
}

#[test]
fn each_enqueue_of_one_entry_adds_one() {
    let mut q = Q::default();
    for expected in 1..6usize {
        q.add_item(single("A"), None, false);
        assert_eq!(q.items.len(), 2 * expected - 1);
        q.add_item_next(single("B"), None);
        assert_eq!(q.items.len(), 2 * expected);
    }
    assert_eq!(q.insert(4, single("C"), None, false), Ok(()));
    assert_eq!(q.items.len(), 11);
    q.add_multi(vec![single("D"), single("E"), single("F")], None, false);
    assert_eq!(q.items.len(), 14);
    q.add_multi_next(vec![single("G"), single("H")], None);
    assert_eq!(q.items.len(), 16);
    assert!(q.played.is_empty());
}
