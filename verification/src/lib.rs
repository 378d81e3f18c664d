//! An in-process timer scheduling engine.
//!
//! A [`TimerQueue`] holds an ordered deadline queue of timer records
//! (one-shot, periodic, or custom cadence), a monotonic identity counter,
//! and a stop flag.  All queue logic — insertion in deadline order,
//! cancellation, period reconfiguration, and the worker's
//! wait-or-fire decision — is verified here.  A host program supplies the
//! clock, the worker thread, and the callback invocations: it reads the
//! current time, calls `worker_step`, and performs the returned action.

mod model;
mod queue;
mod scheduler;
mod laws;

pub use queue::DeadlineQueue;
pub use scheduler::TimerQueue;
pub use scheduler::WorkerStep;
pub use laws::lemma_insert_pending_count;
pub use laws::lemma_one_shot_fire_removes;
pub use laws::lemma_periodic_fire_anchored;
pub use laws::lemma_cancel_removes_exactly_matching;
pub use laws::lemma_due_records_keep_firing;
pub use model::TimerRecord;
pub use model::sorted_by_deadline;
pub use model::has_id;
pub use model::has_deadline;
pub use model::distinct_ids;
pub use model::first_idx_of;
pub use model::insert_spec;
pub use model::remove_id_spec;
pub use model::fire_spec;
pub use model::wrap_inc;
