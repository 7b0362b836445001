//! The process-wide store of the published configuration snapshot.
//!
//! The store is a single atomically swapped reference cell: publishing
//! replaces the shared pointer in one indivisible step, and a reader
//! obtains whichever complete snapshot is current at that instant,
//! without ever blocking on a publisher.  A snapshot is immutable once
//! published; it is freed only after the store and every reader still
//! holding it have dropped their references.
//!
//! Verification works against the store's view: the model of the
//! snapshot most recently published.  A read returns exactly that
//! snapshot, never a value torn between two generations.

use std::sync::Arc;

use vstd::prelude::*;

use crate::value::ConfigValue;
use crate::value::ValModel;

verus! {

/// The lock-free cell holding the shared pointer to the current
/// snapshot.  Opaque to verification; `ConfigStore::read` states the
/// one fact relied upon: the cell holds what was last put in.
#[verifier::external_body]
struct SnapshotCell {
    cell: arc_swap::ArcSwap<ConfigValue>,
}

impl SnapshotCell {
    /// Relies on `arc_swap::ArcSwap::from_pointee`: the new cell holds
    /// the given value behind a freshly allocated shared pointer.
    #[verifier::external_body]
    fn make(value: ConfigValue) -> SnapshotCell {
        SnapshotCell { cell: arc_swap::ArcSwap::from_pointee(value) }
    }

    /// Relies on `arc_swap::ArcSwapAny::store`: one atomic pointer
    /// swap, after which every load yields the new value; it never
    /// blocks a concurrent load.  The pointer it replaces is dropped
    /// here or, if readers still hold it, when the last lets go.
    #[verifier::external_body]
    fn set(&mut self, value: ConfigValue) {
        self.cell.store(Arc::new(value));
    }
}

/// The store of the currently published configuration snapshot.  It
/// is seeded at construction, so a reader can never observe an absent
/// snapshot.
pub struct ConfigStore {
    cell: SnapshotCell,
    snapshot: Ghost<ConfigValue>,
}

impl View for ConfigStore {
    type V = ValModel;

    closed spec fn view(&self) -> ValModel {
        self.snapshot@.model()
    }
}

impl ConfigStore {
    /// Seeds a new store with its first snapshot.
    pub fn new(initial: ConfigValue) -> (s: Self)
        ensures
            s@ == initial.model(),
    {
        let ghost m = initial;
        let cell = SnapshotCell::make(initial);
        ConfigStore { cell, snapshot: Ghost(m) }
    }

    /// Publishes a snapshot: one atomic pointer swap, after which
    /// every read yields the new snapshot, and the previous one is
    /// released.
    pub fn publish(&mut self, snapshot: ConfigValue)
        ensures
            final(self)@ == snapshot.model(),
    {
        proof {
            self.snapshot@ = snapshot;
        }
        self.cell.set(snapshot);
    }

    /// Reads the currently published snapshot, sharing it.
    ///
    /// Relies on `arc_swap::ArcSwapAny::load_full`: it returns a clone
    /// of the currently held shared pointer — the complete value of
    /// the one publish that put it there — without blocking and
    /// without failing.
    #[verifier::external_body]
    pub fn read(&self) -> (r: Arc<ConfigValue>)
        ensures
            (*r).model() == self@,
    {
        self.cell.cell.load_full()
    }

    /// The currently published snapshot, printed as its canonical
    /// source text — what the configuration endpoint answers.
    pub fn published_text(&self) -> (r: String)
        ensures
            r@ == crate::json::spec_ser(self@),
    {
        let snapshot = self.read();
        crate::json::to_text(&snapshot)
    }
}

} // verus!
