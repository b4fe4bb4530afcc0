//! Tracker for login attempts that passed primary authentication but have not
//! completed second-factor verification.
//!
//! At most one pending record exists per (user, device) pair, its creation
//! time is write-once, and records are destroyed only by explicit resolution
//! or bulk deletion. The keyed record store is modelled in memory; callers
//! that persist it elsewhere must preserve the same key-uniqueness guarantee.

mod attempt;
mod laws;
mod policy;
mod store;

pub use attempt::AttemptView;
pub use laws::lemma_delete_for_user_exact;
pub use laws::lemma_find_stale_before_exact;
pub use laws::lemma_mark_pending_disabled_no_row;
pub use laws::lemma_mark_pending_idempotent;
pub use laws::lemma_mark_pending_single_record;
pub use laws::lemma_mark_pending_write_once;
pub use laws::lemma_mark_resolved_clears;
pub use policy::mark_complete_spec;
pub use policy::mark_incomplete_spec;
pub use store::count_key;
pub use store::distinct_keys;
pub use store::find_spec;
pub use store::has_key;
pub use store::key_matches;
pub use store::remove_key_spec;
pub use store::remove_user_spec;
pub use store::same_key;
pub use store::stale_before_spec;
pub use store::views_of;
pub use store::TwoFactorStore;
pub use attempt::Config;
pub use attempt::StorageError;
pub use attempt::TwoFactorIncomplete;
