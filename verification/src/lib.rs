//! A fixed-capacity registry of deferred, zero-argument callables.
//!
//! Each stored callable sits in a [`Slot`] tagged with a lifecycle
//! [`Status`]; the owning [`Manager`] hands out indices, reuses freed
//! slots, and drives each slot through its status state machine while
//! guaranteeing at most one invocation per ready cycle.

mod manager;
mod slot;

pub use manager::assign_index;
pub use manager::lemma_add_appends_in_order;
pub use manager::lemma_add_reuses_lowest;
pub use manager::lemma_add_to_empty_assigns_zero;
pub use manager::lemma_assign_index_bounds;
pub use manager::lemma_skipped_correct;
pub use manager::reusable;
pub use manager::runnable;
pub use manager::skipped;
pub use manager::skipped_prefix;
pub use manager::Manager;
pub use slot::Callable;
pub use slot::Callback;
pub use slot::Slot;
pub use slot::Status;
