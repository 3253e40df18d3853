use vstd::prelude::*;

verus! {

/// Phase of the atlas pipeline: folders are loading, or atlases are published.
#[derive(Debug, Clone, Copy, Default, PartialEq, Eq, Hash, Structural)]
pub enum AtlasLoadingState {
    #[default]
    Setup,
    Completed,
}

/// A notification from the asset source that a folder load made progress.
#[derive(Debug, Clone, Copy, PartialEq, Eq, Structural)]
pub struct LoadEvent {
    pub folder: u64,
    pub loaded_with_dependencies: bool,
}

impl LoadEvent {
    pub fn new(folder: u64, loaded_with_dependencies: bool) -> (r: LoadEvent)
        ensures
            r.folder == folder,
            r.loaded_with_dependencies == loaded_with_dependencies,
    {
        LoadEvent { folder, loaded_with_dependencies }
    }
}

/// An event counts for a folder when it names it and reports it fully loaded.
pub open spec fn event_matches(e: LoadEvent, folder: u64) -> bool {
    e.folder == folder && e.loaded_with_dependencies
}

/// Some event of the history shows the folder fully loaded.
pub open spec fn observed(folder: u64, history: Seq<LoadEvent>) -> bool {
    exists|k: int| 0 <= k < history.len() && event_matches(#[trigger] history[k], folder)
}

/// Every requested folder has been seen fully loaded somewhere in the history.
pub open spec fn all_observed(folders: Seq<u64>, history: Seq<LoadEvent>) -> bool {
    forall|i: int| 0 <= i < folders.len() ==> observed(#[trigger] folders[i], history)
}

/// Pending folder loads, with the evidence gathered for each so far.
pub struct LoadedFolders {
    handles: Vec<u64>,
    matched: Vec<bool>,
    history: Ghost<Seq<LoadEvent>>,
}

impl LoadedFolders {
    /// The folders requested, in request order.
    pub closed spec fn folders(&self) -> Seq<u64> {
        self.handles@
    }

    /// Every event observed so far, across all ticks, in arrival order.
    pub closed spec fn history(&self) -> Seq<LoadEvent> {
        self.history@
    }

    pub closed spec fn wf(&self) -> bool {
        &&& self.matched@.len() == self.handles@.len()
        &&& forall|i: int|
            0 <= i < self.handles@.len() ==> #[trigger] self.matched@[i] == observed(
                self.handles@[i],
                self.history@,
            )
    }

    pub fn new(handles: Vec<u64>) -> (r: LoadedFolders)
        ensures
            r.wf(),
            r.folders() == handles@,
            r.history() == Seq::<LoadEvent>::empty(),
    {
        let n = handles.len();
        let mut matched: Vec<bool> = Vec::new();
        let mut i: usize = 0;
        while i < n
            invariant
                i <= n,
                matched@.len() == i,
                forall|j: int| 0 <= j < i ==> matched@[j] == false,
            decreases n - i,
        {
            matched.push(false);
            i = i + 1;
        }
        LoadedFolders { handles, matched, history: Ghost(Seq::empty()) }
    }

    pub fn handles(&self) -> (r: &Vec<u64>)
        ensures
            r@ == self.folders(),
    {
        &self.handles
    }

    /// Records one tick's batch of notifications: each pending folder is
    /// checked against the same batch, and evidence only accumulates.
    pub fn observe(&mut self, events: &Vec<LoadEvent>)
        requires
            old(self).wf(),
        ensures
            final(self).wf(),
            final(self).folders() == old(self).folders(),
            final(self).history() == old(self).history() + events@,
    {
        let ghost old_hist = self.history@;
        let ghost new_hist = old_hist + events@;
        let ghost old_handles = self.handles@;
        let n = self.handles.len();
        let mut i: usize = 0;
        while i < n
            invariant
                i <= n,
                n == self.handles@.len(),
                self.matched@.len() == n,
                self.history@ == old_hist,
                new_hist == old_hist + events@,
                self.handles@ == old_handles,
                forall|j: int| 0 <= j < i ==> #[trigger] self.matched@[j] == observed(
                    self.handles@[j],
                    new_hist,
                ),
                forall|j: int| i <= j < n ==> #[trigger] self.matched@[j] == observed(
                    self.handles@[j],
                    old_hist,
                ),
            decreases n - i,
        {
            let h = self.handles[i];
            if !self.matched[i] {
                let mut k: usize = 0;
                let mut found = false;
                while k < events.len()
                    invariant
                        k <= events@.len(),
                        new_hist == old_hist + events@,
                        found == exists|m: int| 0 <= m < k && event_matches(#[trigger] events@[m], h),
                    decreases events@.len() - k,
                {
                    if events[k].folder == h && events[k].loaded_with_dependencies {
                        found = true;
                    }
                    k = k + 1;
                }
                proof {
                    if found {
                        let m = choose|m: int| 0 <= m < events@.len() && event_matches(#[trigger] events@[m], h);
                        assert(new_hist[old_hist.len() + m] == events@[m]);
                    } else {
                        assert forall|m: int| 0 <= m < new_hist.len() implies !event_matches(#[trigger] new_hist[m], h) by {
                            if m >= old_hist.len() {
                                assert(new_hist[m] == events@[m - old_hist.len()]);
                            } else {
                                assert(new_hist[m] == old_hist[m]);
                            }
                        }
                    }
                }
                self.matched.set(i, found);
            } else {
                proof {
                    let m = choose|m: int| 0 <= m < old_hist.len() && event_matches(#[trigger] old_hist[m], h);
                    assert(new_hist[m] == old_hist[m]);
                }
            }
            i = i + 1;
        }
        self.history = Ghost(new_hist);
    }

    /// Whether every requested folder has been seen fully loaded.
    pub fn all_loaded(&self) -> (r: bool)
        requires
            self.wf(),
        ensures
            r == all_observed(self.folders(), self.history()),
    {
        let n = self.matched.len();
        let mut i: usize = 0;
        while i < n
            invariant
                i <= n,
                n == self.matched@.len(),
                self.wf(),
                forall|j: int| 0 <= j < i ==> observed(#[trigger] self.handles@[j], self.history@),
            decreases n - i,
        {
            if !self.matched[i] {
                assert(!observed(self.handles@[i as int], self.history@));
                return false;
            }
            i = i + 1;
        }
        true
    }
}

/// One tick of the loading state machine: takes this tick's notifications and
/// moves from `Setup` to `Completed` once every folder has been seen loaded.
pub fn check_folder_loading(
    state: AtlasLoadingState,
    loaded_folders: &mut LoadedFolders,
    events: &Vec<LoadEvent>,
) -> (next: AtlasLoadingState)
    requires
        old(loaded_folders).wf(),
    ensures
        final(loaded_folders).wf(),
        final(loaded_folders).folders() == old(loaded_folders).folders(),
        final(loaded_folders).history() == old(loaded_folders).history() + events@,
        next == (if state == AtlasLoadingState::Setup && !all_observed(
            final(loaded_folders).folders(),
            final(loaded_folders).history(),
        ) {
            AtlasLoadingState::Setup
        } else {
            AtlasLoadingState::Completed
        }),
{
    loaded_folders.observe(events);
    match state {
        AtlasLoadingState::Completed => AtlasLoadingState::Completed,
        AtlasLoadingState::Setup => {
            if loaded_folders.all_loaded() {
                AtlasLoadingState::Completed
            } else {
                AtlasLoadingState::Setup
            }
        },
    }
}

/// Readiness depends only on which notifications were seen, not on their
/// order or on the tick in which each arrived.
pub proof fn lemma_ready_ignores_arrival_order(
    folders: Seq<u64>,
    h1: Seq<LoadEvent>,
    h2: Seq<LoadEvent>,
)
    requires
        forall|e: LoadEvent| h1.contains(e) <==> h2.contains(e),
    ensures
        all_observed(folders, h1) == all_observed(folders, h2),
{
    assert forall|f: u64| observed(f, h1) implies observed(f, h2) by {
        let k = choose|k: int| 0 <= k < h1.len() && event_matches(#[trigger] h1[k], f);
        assert(h1.contains(h1[k]));
        let m = choose|m: int| 0 <= m < h2.len() && h2[m] == h1[k];
        assert(event_matches(h2[m], f));
    }
    assert forall|f: u64| observed(f, h2) implies observed(f, h1) by {
        let k = choose|k: int| 0 <= k < h2.len() && event_matches(#[trigger] h2[k], f);
        assert(h2.contains(h2[k]));
        let m = choose|m: int| 0 <= m < h1.len() && h1[m] == h2[k];
        assert(event_matches(h1[m], f));
    }
}

/// Evidence only accumulates: once every folder has been seen loaded, later
/// notifications cannot make the tracker not ready again.
pub proof fn lemma_ready_is_stable(folders: Seq<u64>, history: Seq<LoadEvent>, later: Seq<LoadEvent>)
    requires
        all_observed(folders, history),
    ensures
        all_observed(folders, history + later),
{
    let h = history + later;
    assert forall|i: int| 0 <= i < folders.len() implies observed(#[trigger] folders[i], h) by {
        assert(observed(folders[i], history));
        let k = choose|k: int| 0 <= k < history.len() && event_matches(#[trigger] history[k], folders[i]);
        assert(h[k] == history[k]);
    }
}

} // verus!
