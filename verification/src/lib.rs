//! A playback queue for media players.
//!
//! A [`Queue`] holds the entries still to be played, with the cursor on the
//! first of them, and the history of entries played. One pending entry may be
//! the insertion anchor: an enqueue after the anchor lands right behind it
//! and takes the anchor over, so that entries enqueued one after another
//! play in that order while entries put in by other means stay behind them.
//!
//! - [`item`]: the entries and their roles.
//! - [`queue`]: the queue and its operations.
//! - [`view`]: the queue as sequences, and what each operation makes of it.
//! - [`anchor`]: where the anchor sits in a sequence of entries.
//! - [`laws`]: what the operations keep true of the anchor, and when going
//!   back undoes going forward.
//! - [`error`]: the failures that operations report.

pub mod anchor;
pub mod error;
pub mod item;
pub mod laws;
pub mod queue;
pub mod view;

pub use error::QueueError;
pub use item::{QueueItem, QueueItemType, QueueState};
pub use queue::Queue;
pub use view::QueueView;
