//! The mathematical state of the store and its transitions.

use vstd::prelude::*;

use crate::context::{App, BufferState, EffectView, ExternalLibrariesEvent, LibraryOrigin};
use crate::library_root::is_library_root;
use crate::path::{
    lemma_path_lt_irreflexive, lemma_path_lt_transitive, lies_under, path_lt, ComponentPath, PathView,
};
use crate::path_map::in_path_order;
use crate::settings::{shows_all, ExternalLibrariesRemoval};

verus! {

/// How long to wait before (re-)running eager enumeration, so that opening a
/// project (which adds several worktrees in quick succession) only triggers
/// one enumeration run.
pub const ENUMERATION_DEBOUNCE_MS: u64 = 500;

/// A surfaced library.
#[verifier::ext_equal]
pub struct LibraryView {
    /// The directory worktree that backs the library.
    pub worktree: u64,
    /// The tracked buffers whose file lives in the library.
    pub buffers: Set<u64>,
    /// How the library was first surfaced.
    pub origin: LibraryOrigin,
}

/// A library whose worktree is being created.
#[verifier::ext_equal]
pub struct PendingView {
    /// The open buffers that wait for the library: the user navigated into it
    /// with them.
    pub waiting: Set<u64>,
    /// The buffers that were dropped while the worktree was being created.
    pub dropped: Set<u64>,
}

/// The state of the store.
#[verifier::ext_equal]
pub struct StoreView {
    /// The surfaced libraries by their roots.
    pub libraries: Map<PathView, LibraryView>,
    /// The libraries whose worktree is being created, by their roots.
    pub pending: Map<PathView, PendingView>,
    /// The roots of enumerated libraries that the user removed.
    pub dismissed: Set<PathView>,
    /// The enumeration timer that was started last.
    pub enumeration_task: Option<u64>,
    /// Whether eager enumeration was enabled when the settings were last seen.
    pub show_all: bool,
}

/// What the store asks for when the set of libraries changed.
pub open spec fn libraries_changed() -> Seq<EffectView> {
    seq![EffectView::Emit(ExternalLibrariesEvent::LibrariesChanged), EffectView::Notify]
}

/// `buffers` and, if there is one, `buffer`.
pub open spec fn with_buffer(buffers: Set<u64>, buffer: Option<u64>) -> Set<u64> {
    match buffer {
        Some(id) => buffers.insert(id),
        None => buffers,
    }
}

impl LibraryView {
    /// Dropping `buffer` takes the library out of the panel: the user
    /// navigated into it, no other buffer references it, and libraries are
    /// removed automatically.
    pub open spec fn leaves_with(self, buffer: u64, removal: ExternalLibrariesRemoval) -> bool {
        &&& self.origin == LibraryOrigin::Navigated
        &&& self.buffers.contains(buffer)
        &&& self.buffers.remove(buffer) == Set::<u64>::empty()
        &&& removal == ExternalLibrariesRemoval::AutoRemove
    }

    /// The library once `buffer` is dropped.
    pub open spec fn without_buffer(self, buffer: u64) -> LibraryView {
        LibraryView { buffers: self.buffers.remove(buffer), ..self }
    }
}

impl PendingView {
    /// A library that `waiting` waits for, with no buffer dropped yet.
    pub open spec fn awaited_by(waiting: Set<u64>) -> PendingView {
        PendingView { waiting, dropped: Set::empty() }
    }

    /// The library once `buffer` waits for it.
    pub open spec fn with_waiting(self, buffer: u64) -> PendingView {
        PendingView { waiting: self.waiting.insert(buffer), dropped: self.dropped.remove(buffer) }
    }

    /// The library once `buffer` is dropped.
    pub open spec fn without_buffer(self, buffer: u64) -> PendingView {
        PendingView { waiting: self.waiting.remove(buffer), dropped: self.dropped.insert(buffer) }
    }

    /// The buffers to track once the worktree is ready, if `buffer` is the one
    /// that it was asked for with: those that wait, and `buffer` unless it was
    /// dropped meanwhile.
    pub open spec fn followed(self, buffer: Option<u64>) -> Set<u64> {
        match buffer {
            Some(id) if !self.dropped.contains(id) => self.waiting.insert(id),
            _ => self.waiting,
        }
    }
}

/// `root` is the first root in path order whose library `worktree` backs.
pub open spec fn first_backed_by(
    libraries: Map<PathView, LibraryView>,
    worktree: u64,
    root: PathView,
) -> bool {
    &&& libraries.contains_key(root)
    &&& libraries[root].worktree == worktree
    &&& forall|other: PathView| #[trigger]
        libraries.contains_key(other) && libraries[other].worktree == worktree ==> other == root
            || path_lt(root, other)
}

/// The library that `worktree` backs; the first in path order if it backs
/// several.
pub open spec fn library_of(libraries: Map<PathView, LibraryView>, worktree: u64) -> Option<PathView> {
    if exists|root: PathView| first_backed_by(libraries, worktree, root) {
        Some(choose|root: PathView| first_backed_by(libraries, worktree, root))
    } else {
        None
    }
}

/// One root at most is the first that a worktree backs.
pub proof fn lemma_library_of(libraries: Map<PathView, LibraryView>, worktree: u64, root: PathView)
    requires
        first_backed_by(libraries, worktree, root),
    ensures
        library_of(libraries, worktree) == Some(root),
{
    let chosen = choose|r: PathView| first_backed_by(libraries, worktree, r);
    if chosen != root {
        lemma_path_lt_transitive(root, chosen, root);
        lemma_path_lt_irreflexive(root);
    }
}

impl StoreView {
    /// A store without libraries.
    pub open spec fn initial(show_all: bool) -> StoreView {
        StoreView {
            libraries: Map::empty(),
            pending: Map::empty(),
            dismissed: Set::empty(),
            enumeration_task: None,
            show_all,
        }
    }

    /// The library at `root` is surfaced or on its way.
    pub open spec fn knows(self, root: PathView) -> bool {
        self.libraries.contains_key(root) || self.pending.contains_key(root)
    }

    /// The task that the next enumeration timer runs under.
    pub open spec fn next_task(self) -> u64 {
        match self.enumeration_task {
            Some(task) => if task == u64::MAX { 0 } else { (task + 1) as u64 },
            None => 0,
        }
    }

    /// A new enumeration timer runs, in place of the one before.
    pub open spec fn schedule(self) -> StoreView {
        StoreView { enumeration_task: Some(self.next_task()), ..self }
    }

    /// What scheduling an enumeration asks for.
    pub open spec fn schedule_effects(self) -> Seq<EffectView> {
        seq![
            EffectView::StartEnumerationTimer {
                task: self.next_task(),
                delay_ms: ENUMERATION_DEBOUNCE_MS,
            },
        ]
    }

    /// What the timer that runs under `task` asks for when it elapses. Only the
    /// timer that was started last leads to an enumeration.
    pub open spec fn timer_effects(self, task: u64, app: App) -> Seq<EffectView> {
        if self.enumeration_task == Some(task) {
            enumerate_effects(app)
        } else {
            Seq::empty()
        }
    }

    /// The library at `root` is on its way, unless it is known. If the user
    /// navigates into it with `buffer`, that buffer waits for it.
    pub open spec fn surface(
        self,
        root: PathView,
        origin: LibraryOrigin,
        buffer: Option<u64>,
    ) -> StoreView {
        if self.knows(root) {
            self
        } else {
            let waiting = match origin {
                LibraryOrigin::Navigated => with_buffer(Set::empty(), buffer),
                LibraryOrigin::Enumerated => Set::empty(),
            };
            StoreView {
                pending: self.pending.insert(root, PendingView::awaited_by(waiting)),
                ..self
            }
        }
    }

    /// What surfacing the library at `root` asks for: an invisible worktree
    /// there, unless the library is known.
    pub open spec fn surface_effects(
        self,
        root: PathView,
        origin: LibraryOrigin,
        buffer: Option<u64>,
    ) -> Seq<EffectView> {
        if self.knows(root) {
            Seq::empty()
        } else {
            seq![
                EffectView::CreateWorktree {
                    library_root: root,
                    visible: false,
                    origin,
                    buffer_id: buffer,
                },
            ]
        }
    }

    /// An enumeration does not surface `root`.
    pub open spec fn skips(self, root: PathView) -> bool {
        self.dismissed.contains(root) || self.knows(root)
    }

    /// An enumeration came across a dependency at `root`.
    pub open spec fn discover(self, root: PathView) -> StoreView {
        if self.skips(root) {
            self
        } else {
            self.surface(root, LibraryOrigin::Enumerated, None)
        }
    }

    /// What coming across a dependency at `root` asks for.
    pub open spec fn discover_effects(self, root: PathView) -> Seq<EffectView> {
        if self.skips(root) {
            Seq::empty()
        } else {
            self.surface_effects(root, LibraryOrigin::Enumerated, None)
        }
    }

    /// An enumeration came across the dependencies at `roots`, in order.
    pub open spec fn discover_all(self, roots: Seq<PathView>) -> StoreView
        decreases roots.len(),
    {
        if roots.len() == 0 {
            self
        } else {
            self.discover_all(roots.drop_last()).discover(roots.last())
        }
    }

    /// What coming across the dependencies at `roots` asks for.
    pub open spec fn discover_all_effects(self, roots: Seq<PathView>) -> Seq<EffectView>
        decreases roots.len(),
    {
        if roots.len() == 0 {
            Seq::empty()
        } else {
            self.discover_all_effects(roots.drop_last()) + self.discover_all(
                roots.drop_last(),
            ).discover_effects(roots.last())
        }
    }

    /// The buffers to track at `root` when the worktree there is ready, if
    /// `buffer` is the one that it was asked for with.
    pub open spec fn followed(self, root: PathView, buffer: Option<u64>) -> Set<u64> {
        if self.pending.contains_key(root) {
            self.pending[root].followed(buffer)
        } else {
            with_buffer(Set::empty(), buffer)
        }
    }

    /// The library at `root` is on its way and a buffer waits for it.
    pub open spec fn is_awaited(self, root: PathView) -> bool {
        self.pending.contains_key(root) && self.pending[root].waiting != Set::<u64>::empty()
    }

    /// Nobody wants the worktree at `root` any more: eager enumeration asked
    /// for it and has been disabled since, and no buffer waits for it.
    pub open spec fn comes_too_late(
        self,
        root: PathView,
        origin: LibraryOrigin,
        show_all: bool,
    ) -> bool {
        &&& origin == LibraryOrigin::Enumerated
        &&& !show_all
        &&& !self.is_awaited(root)
    }

    /// How a library whose worktree is ready counts as surfaced. While eager
    /// enumeration is disabled, one that it asked for counts as navigated into:
    /// it is there for the sake of the buffers that wait for it.
    pub open spec fn origin_when_ready(origin: LibraryOrigin, show_all: bool) -> LibraryOrigin {
        if show_all {
            origin
        } else {
            LibraryOrigin::Navigated
        }
    }

    /// The worktree of the library at `root` is ready. The buffers that wait
    /// for it are tracked from now on, and so is `buffer`, which surfaced it,
    /// unless it was dropped meanwhile.
    pub open spec fn finish(
        self,
        root: PathView,
        worktree: u64,
        origin: LibraryOrigin,
        buffer: Option<u64>,
        show_all: bool,
    ) -> StoreView {
        let pending = self.pending.remove(root);
        let followed = self.followed(root, buffer);
        if self.comes_too_late(root, origin, show_all) {
            StoreView { pending, ..self }
        } else {
            let library = if self.libraries.contains_key(root) {
                LibraryView {
                    worktree,
                    buffers: self.libraries[root].buffers.union(followed),
                    origin: self.libraries[root].origin,
                }
            } else {
                LibraryView {
                    worktree,
                    buffers: followed,
                    origin: StoreView::origin_when_ready(origin, show_all),
                }
            };
            StoreView { libraries: self.libraries.insert(root, library), pending, ..self }
        }
    }

    /// What a worktree that is ready asks for.
    pub open spec fn finish_effects(
        self,
        root: PathView,
        origin: LibraryOrigin,
        show_all: bool,
    ) -> Seq<EffectView> {
        if self.comes_too_late(root, origin, show_all) {
            Seq::empty()
        } else {
            libraries_changed()
        }
    }

    /// No worktree could be created at `root`.
    pub open spec fn abandon(self, root: PathView) -> StoreView {
        StoreView { pending: self.pending.remove(root), ..self }
    }

    /// The library at `root` is backed by `worktree` and has no buffers.
    pub open spec fn register(self, root: PathView, worktree: u64, origin: LibraryOrigin) -> StoreView {
        StoreView {
            libraries: self.libraries.insert(
                root,
                LibraryView { worktree, buffers: Set::empty(), origin },
            ),
            pending: self.pending.remove(root),
            ..self
        }
    }

    /// `buffer` references the library at `root`, if that is surfaced.
    pub open spec fn track(self, root: PathView, buffer: u64) -> StoreView {
        if self.libraries.contains_key(root) {
            let library = self.libraries[root];
            StoreView {
                libraries: self.libraries.insert(
                    root,
                    LibraryView { buffers: library.buffers.insert(buffer), ..library },
                ),
                ..self
            }
        } else {
            self
        }
    }

    /// `buffer` waits for the library at `root`, if that is on its way.
    pub open spec fn wait(self, root: PathView, buffer: u64) -> StoreView {
        if self.pending.contains_key(root) {
            StoreView {
                pending: self.pending.insert(root, self.pending[root].with_waiting(buffer)),
                ..self
            }
        } else {
            self
        }
    }

    /// A buffer was opened on a file of the library at `root`: it is tracked
    /// if the library is surfaced, waits for it if it is on its way, and
    /// surfaces it otherwise.
    pub open spec fn navigate(self, root: PathView, buffer: u64) -> StoreView {
        if self.libraries.contains_key(root) {
            self.track(root, buffer)
        } else if self.pending.contains_key(root) {
            self.wait(root, buffer)
        } else {
            self.surface(root, LibraryOrigin::Navigated, Some(buffer))
        }
    }

    /// What opening a buffer on a file of the library at `root` asks for.
    pub open spec fn navigate_effects(self, root: PathView, buffer: u64) -> Seq<EffectView> {
        self.surface_effects(root, LibraryOrigin::Navigated, Some(buffer))
    }

    /// The library at `root` counts as on its way. The buffers that wait for
    /// it, if any, go on waiting.
    pub open spec fn mark_pending(self, root: PathView) -> StoreView {
        if self.pending.contains_key(root) {
            self
        } else {
            StoreView {
                pending: self.pending.insert(root, PendingView::awaited_by(Set::empty())),
                ..self
            }
        }
    }

    /// `buffer` was dropped: no library tracks it and none that is on its way
    /// is waited for by it.
    pub open spec fn drop_buffer(self, buffer: u64, removal: ExternalLibrariesRemoval) -> StoreView {
        StoreView {
            libraries: Map::new(
                |root: PathView|
                    self.libraries.contains_key(root) && !self.libraries[root].leaves_with(
                        buffer,
                        removal,
                    ),
                |root: PathView| self.libraries[root].without_buffer(buffer),
            ),
            pending: self.pending.map_values(
                |library: PendingView| library.without_buffer(buffer),
            ),
            ..self
        }
    }

    /// Some library leaves the panel with `buffer`.
    pub open spec fn loses_library(self, buffer: u64, removal: ExternalLibrariesRemoval) -> bool {
        exists|root: PathView| #[trigger]
            self.libraries.contains_key(root) && self.libraries[root].leaves_with(buffer, removal)
    }

    /// What dropping `buffer` asks for.
    pub open spec fn drop_buffer_effects(
        self,
        buffer: u64,
        removal: ExternalLibrariesRemoval,
    ) -> Seq<EffectView> {
        if self.loses_library(buffer, removal) {
            libraries_changed()
        } else {
            Seq::empty()
        }
    }

    /// The user removed the library that `worktree` backs. An enumerated one
    /// is remembered as dismissed.
    pub open spec fn remove(self, worktree: u64) -> StoreView {
        match library_of(self.libraries, worktree) {
            Some(root) => StoreView {
                libraries: self.libraries.remove(root),
                dismissed: if self.libraries[root].origin == LibraryOrigin::Enumerated {
                    self.dismissed.insert(root)
                } else {
                    self.dismissed
                },
                ..self
            },
            None => self,
        }
    }

    /// What removing the library that `worktree` backs asks for.
    pub open spec fn remove_effects(self, worktree: u64) -> Seq<EffectView> {
        if library_of(self.libraries, worktree) is Some {
            libraries_changed()
        } else {
            Seq::empty()
        }
    }

    /// Some library was surfaced by enumeration.
    pub open spec fn has_enumerated(self) -> bool {
        exists|root: PathView| #[trigger]
            self.libraries.contains_key(root) && self.libraries[root].origin
                == LibraryOrigin::Enumerated
    }

    /// The enumerated libraries are gone and the dismissed roots forgotten.
    pub open spec fn remove_enumerated(self) -> StoreView {
        StoreView {
            libraries: Map::new(
                |root: PathView|
                    self.libraries.contains_key(root) && self.libraries[root].origin
                        != LibraryOrigin::Enumerated,
                |root: PathView| self.libraries[root],
            ),
            dismissed: Set::empty(),
            ..self
        }
    }

    /// What removing the enumerated libraries asks for.
    pub open spec fn remove_enumerated_effects(self) -> Seq<EffectView> {
        if self.has_enumerated() {
            libraries_changed()
        } else {
            Seq::empty()
        }
    }

    /// The settings changed and now say `show_all`.
    pub open spec fn settings_changed(self, show_all: bool) -> StoreView {
        let seen = StoreView { show_all, ..self };
        if show_all == self.show_all {
            self
        } else if show_all {
            seen.schedule()
        } else {
            seen.remove_enumerated()
        }
    }

    /// What a change of the settings asks for.
    pub open spec fn settings_changed_effects(self, show_all: bool) -> Seq<EffectView> {
        if show_all == self.show_all {
            Seq::empty()
        } else if show_all {
            self.schedule_effects()
        } else {
            self.remove_enumerated_effects()
        }
    }

    /// The worktrees that back the surfaced libraries, in the path order of
    /// the libraries' roots.
    pub open spec fn worktrees(self) -> Seq<u64> {
        in_path_order(self.libraries.dom()).map_values(|root: PathView| self.libraries[root].worktree)
    }

    /// `path` lies under a root that is being surfaced, or under the worktree
    /// of a surfaced library.
    pub open spec fn expects(self, path: PathView, app: App) -> bool {
        ||| exists|root: PathView| #[trigger] self.pending.contains_key(root) && lies_under(path, root)
        ||| exists|root: PathView| #[trigger]
            self.libraries.contains_key(root) && (app.root_of(self.libraries[root].worktree) matches Some(
                worktree_root,
            ) && lies_under(path, worktree_root))
    }
}

/// What an enumeration asks for: the dependencies of the visible worktree
/// roots, each root once and in path order. Nothing if eager enumeration is
/// disabled or no provider is registered.
pub open spec fn enumerate_effects(app: App) -> Seq<EffectView> {
    if shows_all(app.settings) && app.dependency_providers > 0 {
        seq![
            EffectView::ListDependencies {
                roots: in_path_order(app.visible_roots()),
                providers: app.dependency_providers,
            },
        ]
    } else {
        Seq::empty()
    }
}

/// What a newly added buffer does to the store, from `before` to `after` and
/// from `asked_before` to `asked_after`: nothing unless its file is external
/// and belongs to a package.
pub open spec fn buffer_added<F: Fn(&ComponentPath) -> bool>(
    before: StoreView,
    asked_before: Seq<EffectView>,
    buffer: BufferState,
    app: App,
    is_file: F,
    after: StoreView,
    asked_after: Seq<EffectView>,
) -> bool {
    match buffer.external_file(app) {
        Some(path) => exists|root: Option<PathView>|
            is_library_root(is_file, path, root) && #[trigger] package_opened(
                before,
                asked_before,
                root,
                buffer.remote_id,
                after,
                asked_after,
            ),
        None => after == before && asked_after == asked_before,
    }
}

/// What a buffer on a file of the package at `root` does to the store, from
/// `before` to `after` and from `asked_before` to `asked_after`: nothing if
/// the file belongs to no package.
pub open spec fn package_opened(
    before: StoreView,
    asked_before: Seq<EffectView>,
    root: Option<PathView>,
    buffer: u64,
    after: StoreView,
    asked_after: Seq<EffectView>,
) -> bool {
    match root {
        Some(root) => {
            &&& after == before.navigate(root, buffer)
            &&& asked_after == asked_before + before.navigate_effects(root, buffer)
        },
        None => after == before && asked_after == asked_before,
    }
}

} // verus!
