//! The configuration watcher: which paths to watch, how change
//! notifications are coalesced, and what one reload attempt does to
//! the store.
//!
//! The watcher is a state machine with two states, idle and
//! reloading, fed by a bounded queue of depth one: notifications that
//! arrive during a reload collapse into a single pending flag, so
//! bursts coalesce into one further pass and reloads never run
//! concurrently.  The host process owns the event loop; everything it
//! decides is decided here, as functions from state and event to next
//! state and action.
//!
//! One reload attempt re-reads the sources, and publishes the merged
//! snapshot only where every present source parses; a malformed edit
//! leaves the previously good snapshot untouched.

use vstd::prelude::*;

use crate::loader::load_sources;
use crate::loader::spec_load;
use crate::loader::LoadError;
use crate::loader::LoadResult;
use crate::store::ConfigStore;
use crate::value::ValModel;

verus! {

/// The watcher's state: whether a reload pass is running, and whether
/// a notification arrived while it ran.
#[derive(Clone, Copy, Debug, PartialEq, Eq, Structural)]
pub struct WatcherState {
    pub reloading: bool,
    pub pending: bool,
}

/// A well-formed watcher state: a notification can only be pending
/// while a reload runs.
pub open spec fn watcher_wf(st: WatcherState) -> bool {
    st.pending ==> st.reloading
}

/// The state the watcher starts in.
pub fn watcher_idle() -> (st: WatcherState)
    ensures
        st == (WatcherState { reloading: false, pending: false }),
        watcher_wf(st),
{
    WatcherState { reloading: false, pending: false }
}

/// A filesystem notification arrived for a watched path.  An idle
/// watcher starts a reload pass; a busy one records the notification
/// in the depth-one queue, where a burst collapses into one flag.
pub fn on_change_event(st: WatcherState) -> (r: (WatcherState, bool))
    requires
        watcher_wf(st),
    ensures
        watcher_wf(r.0),
        r.1 == !st.reloading,
        r.1 ==> r.0 == (WatcherState { reloading: true, pending: false }),
        !r.1 ==> r.0 == (WatcherState { reloading: true, pending: true }),
{
    if st.reloading {
        (WatcherState { reloading: true, pending: true }, false)
    } else {
        (WatcherState { reloading: true, pending: false }, true)
    }
}

/// A reload pass finished.  Where a notification arrived meanwhile,
/// the watcher immediately starts one further pass for the whole
/// burst; otherwise it falls back to idle.
pub fn on_reload_done(st: WatcherState) -> (r: (WatcherState, bool))
    requires
        watcher_wf(st),
        st.reloading,
    ensures
        watcher_wf(r.0),
        r.1 == st.pending,
        r.1 ==> r.0 == (WatcherState { reloading: true, pending: false }),
        !r.1 ==> r.0 == (WatcherState { reloading: false, pending: false }),
{
    if st.pending {
        (WatcherState { reloading: true, pending: false }, true)
    } else {
        (WatcherState { reloading: false, pending: false }, false)
    }
}

/// The paths a watcher will actually watch, out of the configured
/// ones paired with whether each exists.
pub open spec fn watched_of(paths: Seq<(Seq<char>, bool)>) -> Seq<Seq<char>>
    decreases paths.len(),
{
    if paths.len() == 0 {
        Seq::empty()
    } else if paths.last().1 {
        watched_of(paths.drop_last()).push(paths.last().0)
    } else {
        watched_of(paths.drop_last())
    }
}

/// The configured paths a watcher will skip, each worth a warning.
pub open spec fn skipped_of(paths: Seq<(Seq<char>, bool)>) -> Seq<Seq<char>>
    decreases paths.len(),
{
    if paths.len() == 0 {
        Seq::empty()
    } else if paths.last().1 {
        skipped_of(paths.drop_last())
    } else {
        skipped_of(paths.drop_last()).push(paths.last().0)
    }
}

/// A path is watched exactly where it is configured and exists.
pub proof fn lemma_watched_membership(paths: Seq<(Seq<char>, bool)>, p: Seq<char>)
    ensures
        watched_of(paths).contains(p) <==> exists|i: int|
            0 <= i < paths.len() && paths[i] == (p, true),
    decreases paths.len(),
{
    let w = watched_of(paths);
    if paths.len() == 0 {
        assert(w.len() == 0);
    } else {
        let d = paths.drop_last();
        let wd = watched_of(d);
        lemma_watched_membership(d, p);
        assert(forall|i: int| 0 <= i < d.len() ==> d[i] == paths[i]);
        if exists|i: int| 0 <= i < paths.len() && paths[i] == (p, true) {
            let i = choose|i: int| 0 <= i < paths.len() && paths[i] == (p, true);
            if i < paths.len() - 1 {
                assert(d[i] == (p, true));
                assert(wd.contains(p));
                let k = choose|k: int| 0 <= k < wd.len() && wd[k] == p;
                if paths.last().1 {
                    assert(w[k] == p);
                }
                assert(w.contains(p));
            } else {
                assert(paths.last() == (p, true));
                assert(w[wd.len() as int] == p);
                assert(w.contains(p));
            }
        }
        if w.contains(p) {
            let k = choose|k: int| 0 <= k < w.len() && w[k] == p;
            if paths.last().1 {
                if k < wd.len() {
                    assert(wd[k] == p);
                    assert(wd.contains(p));
                    let i = choose|i: int| 0 <= i < d.len() && d[i] == (p, true);
                    assert(paths[i] == (p, true));
                } else {
                    assert(p == paths.last().0);
                    assert(paths[paths.len() - 1] == (p, true));
                }
            } else {
                assert(wd.contains(p));
                let i = choose|i: int| 0 <= i < d.len() && d[i] == (p, true);
                assert(paths[i] == (p, true));
            }
        }
    }
}

/// What a watcher starting on the given paths does: watches exactly
/// those that exist, in order, and reports the missing ones as
/// warnings rather than failing — starting always succeeds.
pub fn plan_watches(paths: &Vec<(String, bool)>) -> (r: (Vec<String>, Vec<String>))
    ensures
        r.0.deep_view() == watched_of(paths.deep_view()),
        r.1.deep_view() == skipped_of(paths.deep_view()),
{
    let ghost pm = paths.deep_view();
    let mut watched: Vec<String> = Vec::new();
    let mut skipped: Vec<String> = Vec::new();
    let n = paths.len();
    let mut i: usize = 0;
    while i < n
        invariant
            n == paths.len(),
            0 <= i <= n,
            pm == paths.deep_view(),
            pm.len() == n,
            watched.deep_view() =~= watched_of(pm.subrange(0, i as int)),
            skipped.deep_view() =~= skipped_of(pm.subrange(0, i as int)),
        decreases n - i,
    {
        let ghost before = pm.subrange(0, i as int);
        let ghost after = pm.subrange(0, i + 1);
        proof {
            assert(after.drop_last() =~= before);
            assert(after.last() == pm[i as int]);
            assert(pm[i as int] == paths@[i as int].deep_view());
        }
        if paths[i].1 {
            let p = paths[i].0.clone();
            watched.push(p);
        } else {
            let p = paths[i].0.clone();
            skipped.push(p);
        }
        i = i + 1;
    }
    proof {
        assert(pm.subrange(0, pm.len() as int) =~= pm);
    }
    (watched, skipped)
}

/// What one reload pass leaves published: the freshly merged snapshot
/// where every present source parses, and the previous snapshot —
/// untouched — where one does not.
pub open spec fn reload_outcome(prev: ValModel, sources: Seq<Option<Seq<char>>>) -> ValModel {
    match spec_load(sources) {
        LoadResult::Loaded(m) => m,
        LoadResult::Failed { source, at } => prev,
    }
}

/// How one reload pass ended.
#[derive(Clone, Copy, Debug, PartialEq, Eq, Structural)]
pub enum ReloadReport {
    Published,
    Rejected { error: LoadError },
}

/// Runs one reload pass over the given sources: parses and merges
/// them, publishes the result on success, and on a parse failure
/// leaves the store exactly as it was, reporting the failure for the
/// log instead of surfacing it.
pub fn reload_step(store: &mut ConfigStore, sources: &Vec<Option<String>>) -> (r: ReloadReport)
    ensures
        final(store)@ == reload_outcome(old(store)@, sources.deep_view()),
        match spec_load(sources.deep_view()) {
            LoadResult::Loaded(m) => r == ReloadReport::Published,
            LoadResult::Failed { source, at } => r == (ReloadReport::Rejected {
                error: (LoadError { source: source as usize, at: at as usize }),
            }) && final(store)@ == old(store)@,
        },
{
    match load_sources(sources) {
        Ok(snapshot) => {
            store.publish(snapshot);
            ReloadReport::Published
        },
        Err(e) => ReloadReport::Rejected { error: e },
    }
}

/// The snapshot left published after a run of reload passes over the
/// given batches of sources, starting from `init`.
pub open spec fn store_after(init: ValModel, batches: Seq<Seq<Option<Seq<char>>>>) -> ValModel
    decreases batches.len(),
{
    if batches.len() == 0 {
        init
    } else {
        reload_outcome(store_after(init, batches.drop_last()), batches.last())
    }
}

/// Atomicity across a whole run: whatever interleaving of reads a
/// handler makes, every snapshot the store holds — and so every
/// snapshot a read returns — is either the seed or the complete
/// output of one single load, never a mixture of two generations.
pub proof fn lemma_store_holds_one_generation(init: ValModel, batches: Seq<Seq<Option<Seq<char>>>>)
    ensures
        store_after(init, batches) == init || exists|i: int|
            0 <= i < batches.len() && spec_load(batches[i]) == LoadResult::Loaded(
                store_after(init, batches),
            ),
    decreases batches.len(),
{
    if batches.len() > 0 {
        lemma_store_holds_one_generation(init, batches.drop_last());
        let prev = store_after(init, batches.drop_last());
        assert(forall|i: int|
            0 <= i < batches.len() - 1 ==> batches.drop_last()[i] == batches[i]);
        match spec_load(batches.last()) {
            LoadResult::Loaded(m) => {
                assert(batches[batches.len() - 1] == batches.last());
            },
            LoadResult::Failed { source, at } => {
                assert(store_after(init, batches) == prev);
            },
        }
    }
}

/// Seeded with a well-formed snapshot, the store holds a well-formed
/// snapshot after any run of reload passes — so what it publishes can
/// always be printed as a source text and read back unchanged.
pub proof fn lemma_store_after_wf(init: ValModel, batches: Seq<Seq<Option<Seq<char>>>>)
    requires
        crate::json::wf_model(init),
    ensures
        crate::json::wf_model(store_after(init, batches)),
    decreases batches.len(),
{
    if batches.len() > 0 {
        lemma_store_after_wf(init, batches.drop_last());
        crate::loader::lemma_loaded_is_wf(batches.last());
    }
}

/// No regression on a bad edit: where a store holds snapshot `a` and
/// a reload pass finds sources that no longer parse, what the store
/// holds afterwards — and what every later read returns — is `a`
/// exactly.
pub proof fn lemma_no_regression_on_bad_edit(a: ValModel, sources: Seq<Option<Seq<char>>>)
    requires
        spec_load(sources) is Failed,
    ensures
        store_after(a, seq![sources]) == a,
{
    assert(seq![sources].drop_last() =~= Seq::<Seq<Option<Seq<char>>>>::empty());
    assert(store_after(a, Seq::<Seq<Option<Seq<char>>>>::empty()) == a);
    assert(seq![sources].last() == sources);
}

} // verus!
