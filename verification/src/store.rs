//! Discovers external libraries and surfaces them for browsing in the
//! project panel's "External Libraries" section.
//!
//! Libraries are surfaced in two ways:
//!
//! - **On demand**, by reacting to buffers opened in external (non-visible)
//!   worktrees, which is what happens when a user navigates into a dependency.
//!   For each such buffer the store resolves the enclosing package root, asks
//!   for a non-visible directory worktree there, and tracks the buffer. Later
//!   navigations into the same package reuse that worktree; a buffer that is
//!   opened while it is still being created waits for it and is tracked when
//!   it is ready.
//! - **Eagerly**, when the settings show all external libraries: the
//!   dependencies of every visible worktree root are listed and every
//!   dependency is surfaced the same way.
//!
//! A library is removed from the panel either automatically (when its last
//! tracked buffer is dropped) or manually. Libraries surfaced by eager
//! enumeration persist while the setting is enabled, ignoring automatic
//! removal; they are removed when the setting is disabled again. One whose
//! worktree is still being created by then is surfaced only if a buffer waits
//! for it, and counts as navigated into.

use std::collections::HashSet;

use vstd::prelude::*;

use crate::context::{
    App, BufferId, BufferState, BufferStoreEvent, Context, Effect, EffectView,
    ExternalLibrariesEvent, LibraryOrigin, PathStyle, ProjectEntryId, SourceWorktree, WorktreeId,
    WorktreeStoreEvent,
};
use crate::library_entry::{is_library_entry, look_up, no_entry_before};
use crate::library_root::resolve_library_root;
use crate::model::{
    buffer_added, enumerate_effects, first_backed_by, lemma_library_of, libraries_changed, library_of,
    package_opened, LibraryView, PendingView, StoreView, ENUMERATION_DEBOUNCE_MS,
};
use crate::path::{lies_under, path_lt, path_views, ComponentPath, PathView};
use crate::path_map::{
    in_path_order, lemma_path_order_exists, lemma_sorted_position, lists_in_order,
    sorted_without_duplicates, PathMap, PathSet,
};
use crate::settings::{
    external_libraries_removal, removal_mode, show_all_external_libraries, shows_all,
    ExternalLibrariesRemoval,
};

verus! {

broadcast use vstd::std_specs::hash::group_hash_axioms;

/// A library currently surfaced in the panel, together with the open buffers
/// that reference it.
pub struct LibraryEntry {
    /// Non-visible directory worktree rooted at the library's source root.
    worktree: WorktreeId,
    /// Open buffers whose file lives in this library. When this becomes empty
    /// the library is eligible for automatic removal.
    buffer_ids: HashSet<u64>,
    /// How this library was first surfaced. Enumerated libraries persist
    /// while eager enumeration is enabled.
    origin: LibraryOrigin,
}

impl View for LibraryEntry {
    type V = LibraryView;

    closed spec fn view(&self) -> LibraryView {
        LibraryView { worktree: self.worktree, buffers: self.buffer_ids@, origin: self.origin }
    }
}

impl LibraryEntry {
    /// A library without buffers.
    fn new(worktree: WorktreeId, origin: LibraryOrigin) -> (entry: LibraryEntry)
        ensures
            entry@ == (LibraryView { worktree, buffers: Set::<u64>::empty(), origin }),
    {
        LibraryEntry { worktree, buffer_ids: HashSet::new(), origin }
    }

    /// Notes that `buffer_id` references the library.
    fn track(&mut self, buffer_id: BufferId)
        ensures
            final(self)@ == (LibraryView {
                buffers: old(self)@.buffers.insert(buffer_id),
                ..old(self)@
            }),
    {
        let _ = self.buffer_ids.insert(buffer_id);
    }

    /// Notes that all of `buffers` reference the library.
    fn track_all(&mut self, buffers: &HashSet<u64>)
        ensures
            final(self)@ == (LibraryView {
                buffers: old(self)@.buffers.union(buffers@),
                ..old(self)@
            }),
    {
        for id in ids: buffers.iter()
            invariant
                self.worktree == old(self).worktree,
                self.origin == old(self).origin,
                ids.seq().unref().to_set() == buffers@,
                forall|b: u64| #[trigger]
                    self.buffer_ids@.contains(b) <==> old(self).buffer_ids@.contains(b) || exists|
                        j: int,
                    |
                        0 <= j < ids.index() && #[trigger] ids.seq().unref()[j] == b,
        {
            let ghost all = ids.seq().unref();
            let ghost earlier = self.buffer_ids@;
            let _ = self.buffer_ids.insert(*id);
            assert(all[ids.index() as int] == *id);
            assert(self.buffer_ids@ == earlier.insert(*id));
        }
        assert(self.buffer_ids@ =~= old(self).buffer_ids@.union(buffers@));
    }

    /// Drops `buffer_id`. Returns whether the library leaves the panel with it.
    fn drop_buffer(&mut self, buffer_id: BufferId, removal: ExternalLibrariesRemoval) -> (leaves: bool)
        ensures
            final(self)@ == old(self)@.without_buffer(buffer_id),
            leaves == old(self)@.leaves_with(buffer_id, removal),
    {
        let was_present = self.buffer_ids.remove(&buffer_id);
        assert(self@ =~= old(self)@.without_buffer(buffer_id));
        // Enumerated libraries persist while eager enumeration is enabled;
        // they're removed by disabling the setting or manually.
        if self.origin == LibraryOrigin::Enumerated {
            return false;
        }
        was_present && self.buffer_ids.is_empty() && removal == ExternalLibrariesRemoval::AutoRemove
    }
}

/// A library whose directory worktree is being created.
pub struct PendingLibrary {
    /// Open buffers that wait for the library.
    waiting: HashSet<u64>,
    /// Buffers dropped since the creation began.
    dropped: HashSet<u64>,
}

impl View for PendingLibrary {
    type V = PendingView;

    closed spec fn view(&self) -> PendingView {
        PendingView { waiting: self.waiting@, dropped: self.dropped@ }
    }
}

impl PendingLibrary {
    /// A library that no buffer waits for.
    fn new() -> (library: PendingLibrary)
        ensures
            library@ == PendingView::awaited_by(Set::empty()),
    {
        PendingLibrary { waiting: HashSet::new(), dropped: HashSet::new() }
    }

    /// Lets `buffer_id` wait for the library.
    fn wait(&mut self, buffer_id: BufferId)
        ensures
            final(self)@ == old(self)@.with_waiting(buffer_id),
    {
        let _ = self.waiting.insert(buffer_id);
        let _ = self.dropped.remove(&buffer_id);
    }

    /// Notes that `buffer_id` was dropped.
    fn drop_buffer(&mut self, buffer_id: BufferId)
        ensures
            final(self)@ == old(self)@.without_buffer(buffer_id),
    {
        let _ = self.waiting.remove(&buffer_id);
        let _ = self.dropped.insert(buffer_id);
    }

    /// The buffers to track now that the library is ready; `buffer_id` is the
    /// one that surfaced it, if any.
    fn into_followed(self, buffer_id: Option<BufferId>) -> (followed: HashSet<u64>)
        ensures
            followed@ == self@.followed(buffer_id),
    {
        let PendingLibrary { waiting, dropped } = self;
        let mut followed = waiting;
        if let Some(id) = buffer_id {
            if !dropped.contains(&id) {
                let _ = followed.insert(id);
            }
        }
        followed
    }
}

/// Tracks external libraries that the user has navigated into, with a
/// non-visible worktree per library so its source tree can be browsed.
pub struct ExternalLibrariesStore {
    /// Library source root (absolute) -> entry.
    libraries: PathMap<LibraryEntry>,
    /// Library roots whose directory worktree is currently being created.
    /// Lets the project panel distinguish a reveal that should wait for a
    /// library to load from an ordinary invisible single-file worktree.
    pending_roots: PathMap<PendingLibrary>,
    /// Roots of enumerated libraries the user removed manually.
    /// Re-enumeration skips them; cleared when the setting is disabled so
    /// toggling it back on starts fresh.
    dismissed_roots: PathSet,
    /// Debounced eager-enumeration task.
    enumeration_task: Option<u64>,
    /// Whether eager enumeration was enabled when the settings were last seen.
    show_all: bool,
}

impl View for ExternalLibrariesStore {
    type V = StoreView;

    closed spec fn view(&self) -> StoreView {
        StoreView {
            libraries: self.libraries@.map_values(|entry: LibraryEntry| entry@),
            pending: self.pending_roots@.map_values(|library: PendingLibrary| library@),
            dismissed: self.dismissed_roots@,
            enumeration_task: self.enumeration_task,
            show_all: self.show_all,
        }
    }
}

/// Emits that the set of libraries changed and notifies observers.
fn notify_libraries_changed(cx: &mut Context)
    ensures
        final(cx).app == old(cx).app,
        final(cx).asked() == old(cx).asked() + libraries_changed(),
{
    cx.ask(Effect::Emit(ExternalLibrariesEvent::LibrariesChanged));
    cx.ask(Effect::Notify);
    assert(cx.asked() =~= old(cx).asked() + libraries_changed());
}

impl ExternalLibrariesStore {
    /// No root occurs twice among the libraries, the pending roots or the
    /// dismissed roots.
    pub closed spec fn wf(self) -> bool {
        &&& self.libraries.wf()
        &&& self.pending_roots.wf()
        &&& self.dismissed_roots.wf()
    }

    /// A store without libraries. Eager enumeration is scheduled right away if
    /// it is enabled and there are visible worktrees already.
    pub fn new(cx: &mut Context) -> (store: Self)
        ensures
            store.wf(),
            final(cx).app == old(cx).app,
            ({
                let show_all = shows_all(old(cx).app.settings);
                let initial = StoreView::initial(show_all);
                if show_all && old(cx).app.visible_worktree_roots@.len() > 0 {
                    &&& store@ == initial.schedule()
                    &&& final(cx).asked() == old(cx).asked() + initial.schedule_effects()
                } else {
                    &&& store@ == initial
                    &&& final(cx).asked() == old(cx).asked()
                }
            }),
    {
        let show_all = show_all_external_libraries(&cx.app.settings);
        let had_visible_worktrees = cx.app.visible_worktree_roots.len() > 0;
        let mut store = ExternalLibrariesStore {
            libraries: PathMap::new(),
            pending_roots: PathMap::new(),
            dismissed_roots: PathSet::new(),
            enumeration_task: None,
            show_all,
        };
        assert(store@ =~= StoreView::initial(show_all));
        if show_all && had_visible_worktrees {
            store.schedule_enumeration(cx);
        }
        store
    }

    /// Schedules a debounced run of [`Self::enumerate_all_libraries`].
    pub fn schedule_enumeration(&mut self, cx: &mut Context)
        requires
            old(self).wf(),
        ensures
            final(self).wf(),
            final(self)@ == old(self)@.schedule(),
            final(cx).app == old(cx).app,
            final(cx).asked() == old(cx).asked() + old(self)@.schedule_effects(),
    {
        let task: u64 = match self.enumeration_task {
            Some(task) => if task == u64::MAX {
                0
            } else {
                task + 1
            },
            None => 0,
        };
        self.enumeration_task = Some(task);
        cx.ask(Effect::StartEnumerationTimer { task, delay_ms: ENUMERATION_DEBOUNCE_MS });
        assert(self@ =~= old(self)@.schedule());
        assert(cx.asked() =~= old(cx).asked() + old(self)@.schedule_effects());
    }

    /// The timer that runs under `task` elapsed. Only the timer started last
    /// leads to an enumeration.
    pub fn enumeration_timer_elapsed(&mut self, task: u64, cx: &mut Context)
        requires
            old(self).wf(),
        ensures
            *final(self) == *old(self),
            final(cx).app == old(cx).app,
            final(cx).asked() == old(cx).asked() + old(self)@.timer_effects(task, old(cx).app),
    {
        if let Some(current) = self.enumeration_task {
            if current == task {
                self.enumerate_all_libraries(cx);
                return;
            }
        }
        assert(cx.asked() =~= old(cx).asked() + old(self)@.timer_effects(task, old(cx).app));
    }

    /// Eagerly enumerates the project's external dependencies, so the
    /// "External Libraries" section lists every dependency rather than only
    /// the ones the user navigated into.
    ///
    /// Asks every registered provider about every visible worktree root.
    /// No-op unless the settings show all external libraries.
    pub fn enumerate_all_libraries(&mut self, cx: &mut Context)
        requires
            old(self).wf(),
        ensures
            *final(self) == *old(self),
            final(cx).app == old(cx).app,
            final(cx).asked() == old(cx).asked() + enumerate_effects(old(cx).app),
            lists_in_order(in_path_order(old(cx).app.visible_roots()), old(cx).app.visible_roots()),
    {
        proof {
            cx.app.lemma_visible_roots();
            lemma_path_order_exists(cx.app.visible_roots());
        }
        if !show_all_external_libraries(&cx.app.settings) {
            assert(cx.asked() =~= old(cx).asked() + enumerate_effects(old(cx).app));
            return;
        }
        let providers = cx.app.dependency_providers;
        if providers == 0 {
            assert(cx.asked() =~= old(cx).asked() + enumerate_effects(old(cx).app));
            return;
        }
        let roots = sorted_without_duplicates(&cx.app.visible_worktree_roots);
        cx.ask(Effect::ListDependencies { roots, providers });
        assert(cx.asked() =~= old(cx).asked() + enumerate_effects(old(cx).app));
    }

    /// Surfaces the dependencies that an enumeration came across. Skips
    /// manually-removed libraries and roots that are already surfaced (or
    /// currently being surfaced).
    pub fn surface_dependencies(&mut self, dependencies: &Vec<ComponentPath>, cx: &mut Context)
        requires
            old(self).wf(),
        ensures
            final(self).wf(),
            final(self)@ == old(self)@.discover_all(path_views(dependencies@)),
            final(cx).app == old(cx).app,
            final(cx).asked() == old(cx).asked() + old(self)@.discover_all_effects(
                path_views(dependencies@),
            ),
    {
        let ghost roots = path_views(dependencies@);
        let mut i: usize = 0;
        assert(cx.asked() =~= old(cx).asked() + old(self)@.discover_all_effects(roots.take(0)));
        while i < dependencies.len()
            invariant
                i <= dependencies@.len(),
                roots == path_views(dependencies@),
                self.wf(),
                self@ == old(self)@.discover_all(roots.take(i as int)),
                cx.app == old(cx).app,
                cx.asked() == old(cx).asked() + old(self)@.discover_all_effects(roots.take(i as int)),
            decreases dependencies@.len() - i,
        {
            let root = dependencies[i].duplicate();
            proof {
                assert(roots.take(i + 1).drop_last() =~= roots.take(i as int));
                assert(roots.take(i + 1).last() == root@);
            }
            let ghost asked = cx.asked();
            let ghost state = self@;
            if !(self.dismissed_roots.contains(&root) || self.libraries.contains_key(&root)
                || self.pending_roots.contains_key(&root)) {
                self.surface_library(root, LibraryOrigin::Enumerated, None, cx);
            }
            assert(cx.asked() =~= asked + state.discover_effects(root@));
            assert(cx.asked() =~= old(cx).asked() + old(self)@.discover_all_effects(roots.take(i + 1)));
            i += 1;
        }
        assert(roots.take(i as int) =~= roots);
    }

    /// Surfaces the library at `library_root`, asking for a non-visible
    /// directory worktree there. `buffer_id` is the buffer that triggered the
    /// surfacing, if any.
    pub fn surface_library(
        &mut self,
        library_root: ComponentPath,
        origin: LibraryOrigin,
        buffer_id: Option<BufferId>,
        cx: &mut Context,
    )
        requires
            old(self).wf(),
        ensures
            final(self).wf(),
            final(self)@ == old(self)@.surface(library_root@, origin, buffer_id),
            final(cx).app == old(cx).app,
            final(cx).asked() == old(cx).asked() + old(self)@.surface_effects(
                library_root@,
                origin,
                buffer_id,
            ),
    {
        if self.libraries.contains_key(&library_root) || self.pending_roots.contains_key(
            &library_root,
        ) {
            assert(cx.asked() =~= old(cx).asked() + old(self)@.surface_effects(
                library_root@,
                origin,
                buffer_id,
            ));
            return;
        }
        // Mark the library as expected before its worktree is created, so the
        // project panel defers reveals for its files until then.
        let mut library = PendingLibrary::new();
        if origin == LibraryOrigin::Navigated {
            if let Some(id) = buffer_id {
                library.wait(id);
            }
        }
        assert(library@.dropped =~= Set::<u64>::empty());
        self.pending_roots.insert(library_root.duplicate(), library);
        let ghost root = library_root@;
        cx.ask(Effect::CreateWorktree { library_root, visible: false, origin, buffer_id });
        assert(self@ =~= old(self)@.surface(root, origin, buffer_id));
        assert(cx.asked() =~= old(cx).asked() + old(self)@.surface_effects(root, origin, buffer_id));
    }

    /// Takes in the outcome of creating the worktree of a library.
    pub fn library_worktree_created<E>(
        &mut self,
        library_root: ComponentPath,
        origin: LibraryOrigin,
        buffer_id: Option<BufferId>,
        created: Result<WorktreeId, E>,
        cx: &mut Context,
    )
        requires
            old(self).wf(),
        ensures
            final(self).wf(),
            final(cx).app == old(cx).app,
            ({
                let show_all = shows_all(old(cx).app.settings);
                match created {
                    Ok(worktree) => {
                        &&& final(self)@ == old(self)@.finish(
                            library_root@,
                            worktree,
                            origin,
                            buffer_id,
                            show_all,
                        )
                        &&& final(cx).asked() == old(cx).asked() + old(self)@.finish_effects(
                            library_root@,
                            origin,
                            show_all,
                        )
                    },
                    Err(_) => {
                        &&& final(self)@ == old(self)@.abandon(library_root@)
                        &&& final(cx).asked() == old(cx).asked() + libraries_changed()
                    },
                }
            }),
    {
        match created {
            Ok(worktree) => self.finish_library(library_root, worktree, origin, buffer_id, cx),
            Err(_) => {
                let _ = self.pending_roots.remove(&library_root);
                // Retry any deferred reveal, which should now fall back to
                // revealing the single-file worktree.
                notify_libraries_changed(cx);
                assert(self@ =~= old(self)@.abandon(library_root@));
            },
        }
    }

    /// Takes `library_root` off the pending roots and returns what is known of
    /// the library, if it was pending.
    fn take_pending(&mut self, library_root: &ComponentPath) -> (library: Option<PendingLibrary>)
        requires
            old(self).wf(),
        ensures
            final(self).wf(),
            final(self)@ == old(self)@.abandon(library_root@),
            final(self).libraries == old(self).libraries,
            library is Some <==> old(self)@.pending.contains_key(library_root@),
            library matches Some(library) ==> library@ == old(self)@.pending[library_root@],
    {
        match self.pending_roots.find(library_root) {
            Some(i) => {
                proof {
                    self.pending_roots.lemma_contents();
                }
                let (_, library) = self.pending_roots.remove_at(i);
                assert(self@ =~= old(self)@.abandon(library_root@));
                Some(library)
            },
            None => {
                assert(self@ =~= old(self)@.abandon(library_root@));
                None
            },
        }
    }

    /// Inserts a finished library worktree into the store, tracking the
    /// buffer that surfaced it (if any, and unless it was dropped since) and
    /// those that wait for it, and notifying observers.
    pub fn finish_library(
        &mut self,
        library_root: ComponentPath,
        worktree: WorktreeId,
        origin: LibraryOrigin,
        buffer_id: Option<BufferId>,
        cx: &mut Context,
    )
        requires
            old(self).wf(),
        ensures
            final(self).wf(),
            final(self)@ == old(self)@.finish(
                library_root@,
                worktree,
                origin,
                buffer_id,
                shows_all(old(cx).app.settings),
            ),
            final(cx).app == old(cx).app,
            final(cx).asked() == old(cx).asked() + old(self)@.finish_effects(
                library_root@,
                origin,
                shows_all(old(cx).app.settings),
            ),
    {
        let ghost root = library_root@;
        let show_all = show_all_external_libraries(&cx.app.settings);
        let pending = self.take_pending(&library_root);
        let awaited = match &pending {
            Some(library) => !library.waiting.is_empty(),
            None => false,
        };
        assert(awaited == old(self)@.is_awaited(root));
        // An enumeration may complete after the setting was disabled; don't
        // surface enumerated libraries in that case, unless the user has
        // navigated into them meanwhile.
        if origin == LibraryOrigin::Enumerated && !show_all && !awaited {
            assert(cx.asked() =~= old(cx).asked() + Seq::<EffectView>::empty());
            return;
        }
        let followed = match pending {
            Some(library) => library.into_followed(buffer_id),
            None => {
                let mut followed: HashSet<u64> = HashSet::new();
                if let Some(id) = buffer_id {
                    let _ = followed.insert(id);
                }
                followed
            },
        };
        let ghost before = self.libraries;
        match self.libraries.find(&library_root) {
            Some(i) => {
                let entry = self.libraries.value_at_mut(i);
                entry.worktree = worktree;
                entry.track_all(&followed);
                proof {
                    before.lemma_contents();
                    PathMap::lemma_value_changed(before, self.libraries, i as int);
                }
            },
            None => {
                let origin = if show_all {
                    origin
                } else {
                    LibraryOrigin::Navigated
                };
                self.libraries.insert(
                    library_root,
                    LibraryEntry { worktree, buffer_ids: followed, origin },
                );
            },
        }
        notify_libraries_changed(cx);
        assert(self@ =~= old(self)@.finish(root, worktree, origin, buffer_id, show_all));
    }

    /// The store holds finitely many roots.
    pub proof fn lemma_finite(self)
        requires
            self.wf(),
        ensures
            self@.libraries.dom().finite(),
            self@.pending.dom().finite(),
            self@.dismissed.finite(),
    {
        self.libraries.lemma_finite();
        self.pending_roots.lemma_finite();
        self.dismissed_roots.lemma_finite();
        assert(self@.libraries.dom() =~= self.libraries@.dom());
        assert(self@.pending.dom() =~= self.pending_roots@.dom());
    }

    /// What the store's entries say about its libraries.
    proof fn lemma_libraries(self)
        requires
            self.wf(),
        ensures
            self.libraries.keys() == in_path_order(self@.libraries.dom()),
            lists_in_order(self.libraries.keys(), self@.libraries.dom()),
            self.libraries.keys().len() == self.libraries.values().len(),
            forall|i: int|
                0 <= i < self.libraries.keys().len() ==> self@.libraries.contains_key(
                    #[trigger] self.libraries.keys()[i],
                ) && self@.libraries[self.libraries.keys()[i]] == self.libraries.values()[i]@,
            forall|root: PathView| #[trigger]
                self@.libraries.contains_key(root) ==> 0 <= self.libraries.keys().index_of(root)
                    < self.libraries.keys().len() && self.libraries.keys()[self.libraries.keys().index_of(
                    root,
                )] == root,
    {
        self.libraries.lemma_contents();
        self.libraries.lemma_key_order();
        assert(self@.libraries.dom() =~= self.libraries@.dom());
    }

    /// The worktrees backing the currently-surfaced libraries, in stable
    /// (path-sorted) order. Rendered by the project panel.
    pub fn worktrees(&self) -> (worktrees: Vec<WorktreeId>)
        requires
            self.wf(),
        ensures
            worktrees@ == self@.worktrees(),
            lists_in_order(in_path_order(self@.libraries.dom()), self@.libraries.dom()),
    {
        proof {
            self.lemma_libraries();
        }
        let mut worktrees: Vec<WorktreeId> = Vec::new();
        let mut i: usize = 0;
        while i < self.libraries.len()
            invariant
                i <= self.libraries.keys().len(),
                self.libraries.keys().len() == self.libraries.values().len(),
                worktrees@.len() == i,
                forall|j: int| 0 <= j < i ==> #[trigger] worktrees@[j] == self.libraries.values()[j]@.worktree,
            decreases self.libraries.keys().len() - i,
        {
            worktrees.push(self.libraries.value_at(i).worktree);
            i += 1;
        }
        proof {
            let roots = self.libraries.keys();
            assert forall|j: int| 0 <= j < worktrees@.len() implies worktrees@[j]
                == #[trigger] self@.worktrees()[j] by {
                assert(self@.libraries[roots[j]] == self.libraries.values()[j]@);
            }
            assert(worktrees@ =~= self@.worktrees());
        }
        worktrees
    }

    /// Returns `true` if `worktree_id` backs one of the surfaced libraries.
    pub fn is_external_library(&self, worktree_id: WorktreeId) -> (result: bool)
        requires
            self.wf(),
        ensures
            result == exists|root: PathView| #[trigger]
                self@.libraries.contains_key(root) && self@.libraries[root].worktree == worktree_id,
    {
        proof {
            self.lemma_libraries();
        }
        let mut i: usize = 0;
        while i < self.libraries.len()
            invariant
                i <= self.libraries.keys().len(),
                self.libraries.keys().len() == self.libraries.values().len(),
                forall|j: int| 0 <= j < i ==> (#[trigger] self.libraries.values()[j])@.worktree != worktree_id,
                forall|j: int|
                    0 <= j < self.libraries.keys().len() ==> self@.libraries.contains_key(
                        #[trigger] self.libraries.keys()[j],
                    ) && self@.libraries[self.libraries.keys()[j]] == self.libraries.values()[j]@,
            decreases self.libraries.keys().len() - i,
        {
            if self.libraries.value_at(i).worktree == worktree_id {
                assert(self@.libraries.contains_key(self.libraries.keys()[i as int]));
                return true;
            }
            i += 1;
        }
        false
    }

    /// Returns `true` if `abs_path` refers to a file that lives under a
    /// library root that has been surfaced or is currently being surfaced
    /// (its directory worktree is being created or scanned). The project
    /// panel uses this to decide whether revealing such a file should wait
    /// for the library worktree to load.
    pub fn is_library_expected_for(&self, abs_path: &ComponentPath, cx: &App) -> (result: bool)
        requires
            self.wf(),
        ensures
            result == self@.expects(abs_path@, *cx),
    {
        proof {
            self.lemma_libraries();
            self.pending_roots.lemma_contents();
        }
        let mut i: usize = 0;
        while i < self.pending_roots.len()
            invariant
                i <= self.pending_roots.keys().len(),
                forall|j: int|
                    0 <= j < self.pending_roots.keys().len() ==> self@.pending.contains_key(
                        #[trigger] self.pending_roots.keys()[j],
                    ),
                forall|j: int|
                    0 <= j < i ==> !lies_under(abs_path@, #[trigger] self.pending_roots.keys()[j]),
            decreases self.pending_roots.keys().len() - i,
        {
            if abs_path.is_under(self.pending_roots.key_at(i)) {
                assert(self@.pending.contains_key(self.pending_roots.keys()[i as int]));
                return true;
            }
            i += 1;
        }
        assert forall|root: PathView| #[trigger] self@.pending.contains_key(root) implies !lies_under(
            abs_path@,
            root,
        ) by {
            assert(self.pending_roots.keys().contains(root));
            let j = self.pending_roots.keys().index_of(root);
            assert(self.pending_roots.keys()[j] == root);
        }
        let mut k: usize = 0;
        while k < self.libraries.len()
            invariant
                k <= self.libraries.keys().len(),
                self.libraries.keys().len() == self.libraries.values().len(),
                forall|j: int|
                    0 <= j < self.libraries.keys().len() ==> self@.libraries.contains_key(
                        #[trigger] self.libraries.keys()[j],
                    ) && self@.libraries[self.libraries.keys()[j]] == self.libraries.values()[j]@,
                forall|j: int|
                    0 <= j < k ==> !(cx.root_of((#[trigger] self.libraries.values()[j])@.worktree) matches Some(
                        root,
                    ) && lies_under(abs_path@, root)),
            decreases self.libraries.keys().len() - k,
        {
            if let Some(root) = cx.worktree_roots.get(&self.libraries.value_at(k).worktree) {
                if abs_path.is_under(root) {
                    assert(self@.libraries.contains_key(self.libraries.keys()[k as int]));
                    return true;
                }
            }
            k += 1;
        }
        assert forall|root: PathView| #[trigger] self@.libraries.contains_key(root) implies !(cx.root_of(
            self@.libraries[root].worktree,
        ) matches Some(worktree_root) && lies_under(abs_path@, worktree_root)) by {
            let j = self.libraries.keys().index_of(root);
            assert(self.libraries.keys()[j] == root);
            assert(self@.libraries[root] == self.libraries.values()[j]@);
        }
        false
    }

    /// Manually removes a library from the panel (regardless of open buffers).
    pub fn remove_library(&mut self, worktree_id: WorktreeId, cx: &mut Context)
        requires
            old(self).wf(),
        ensures
            final(self).wf(),
            final(self)@ == old(self)@.remove(worktree_id),
            final(cx).app == old(cx).app,
            final(cx).asked() == old(cx).asked() + old(self)@.remove_effects(worktree_id),
            library_of(old(self)@.libraries, worktree_id) is Some <==> exists|root: PathView| #[trigger]
                old(self)@.libraries.contains_key(root) && old(self)@.libraries[root].worktree
                    == worktree_id,
    {
        proof {
            self.lemma_libraries();
        }
        let ghost roots = self.libraries.keys();
        let mut i: usize = 0;
        while i < self.libraries.len()
            invariant
                i <= roots.len(),
                *self == *old(self),
                self.wf(),
                roots == self.libraries.keys(),
                roots.len() == self.libraries.values().len(),
                cx.app == old(cx).app,
                cx.asked() == old(cx).asked(),
                forall|j: int|
                    0 <= j < roots.len() ==> self@.libraries.contains_key(#[trigger] roots[j])
                        && self@.libraries[roots[j]] == self.libraries.values()[j]@,
                forall|root: PathView| #[trigger]
                    self@.libraries.contains_key(root) ==> 0 <= roots.index_of(root) < roots.len()
                        && roots[roots.index_of(root)] == root,
                forall|j: int| 0 <= j < i ==> (#[trigger] self.libraries.values()[j])@.worktree != worktree_id,
            decreases roots.len() - i,
        {
            if self.libraries.value_at(i).worktree == worktree_id {
                let ghost root = roots[i as int];
                proof {
                    assert(self@.libraries.contains_key(root));
                    assert forall|other: PathView| #[trigger]
                        self@.libraries.contains_key(other) && self@.libraries[other].worktree
                            == worktree_id implies other == root || path_lt(root, other) by {
                        let j = roots.index_of(other);
                        assert(self@.libraries[roots[j]] == self.libraries.values()[j]@);
                        assert(j >= i);
                        if j > i {
                            assert(path_lt(roots[i as int], roots[j]));
                        }
                    }
                    assert(first_backed_by(self@.libraries, worktree_id, root));
                    lemma_library_of(self@.libraries, worktree_id, root);
                }
                let (library_root, entry) = self.libraries.remove_at(i);
                // Remember manually-removed enumerated libraries so a later
                // re-enumeration (e.g. when another worktree is added) doesn't
                // immediately restore them.
                if entry.origin == LibraryOrigin::Enumerated {
                    self.dismissed_roots.insert(library_root);
                }
                notify_libraries_changed(cx);
                assert(self@ =~= old(self)@.remove(worktree_id));
                return;
            }
            i += 1;
        }
        proof {
            assert forall|root: PathView| #[trigger]
                self@.libraries.contains_key(root) implies self@.libraries[root].worktree
                != worktree_id by {
                let j = roots.index_of(root);
                assert(self@.libraries[roots[j]] == self.libraries.values()[j]@);
            }
            assert(cx.asked() =~= old(cx).asked() + old(self)@.remove_effects(worktree_id));
        }
    }

    /// Maps an entry that lives in a single-file external worktree (the
    /// worktree created on the first navigation into a package) to the
    /// equivalent entry inside the surfaced library directory worktree.
    ///
    /// This lets the project panel reveal files even before the buffer has
    /// migrated to the directory worktree. Returns `None` for entries that
    /// don't need translation (e.g. project files, or entries already inside a
    /// library directory worktree).
    ///
    /// `worktree_for_entry` gives the worktree that an entry lives in,
    /// `to_rel_path` writes the rest of a path as a path relative to a
    /// worktree, and `entry_for_path` gives a worktree's entry at such a path.
    pub fn resolve_library_entry<
        S: Fn(u64) -> Option<SourceWorktree>,
        R: Fn(&ComponentPath, PathStyle) -> Option<String>,
        E: Fn(u64, &String) -> Option<u64>,
    >(
        &self,
        entry_id: ProjectEntryId,
        cx: &App,
        worktree_for_entry: &S,
        to_rel_path: &R,
        entry_for_path: &E,
    ) -> (found: Option<ProjectEntryId>)
        requires
            self.wf(),
            forall|id: u64| #[trigger] call_requires(*worktree_for_entry, (id,)),
            forall|rel: &ComponentPath, style: PathStyle| #[trigger]
                call_requires(*to_rel_path, (rel, style)),
            forall|worktree: u64, rel_path: &String| #[trigger]
                call_requires(*entry_for_path, (worktree, rel_path)),
        ensures
            exists|src: Option<SourceWorktree>| #[trigger]
                call_ensures(*worktree_for_entry, (entry_id,), src) && match src {
                    Some(src) => match src.single_file_entry() {
                        Some(path) => is_library_entry(
                            self@.worktrees(),
                            *cx,
                            path,
                            src.path_style,
                            *to_rel_path,
                            *entry_for_path,
                            found,
                        ),
                        None => found is None,
                    },
                    None => found is None,
                },
    {
        let source = worktree_for_entry(entry_id);
        let ghost answer = source;
        let src = match source {
            Some(src) => src,
            None => {
                assert(call_ensures(*worktree_for_entry, (entry_id,), answer));
                return None;
            },
        };
        // Only single-file invisible worktrees (first-navigation case) need
        // translation. Visible or directory worktrees reveal directly.
        if src.is_visible || !src.is_single_file {
            assert(call_ensures(*worktree_for_entry, (entry_id,), answer));
            return None;
        }
        let style = src.path_style;
        let abs_path = match src.entry_path {
            Some(path) => path,
            None => {
                assert(call_ensures(*worktree_for_entry, (entry_id,), answer));
                return None;
            },
        };
        assert(call_ensures(*worktree_for_entry, (entry_id,), answer));
        assert(answer->Some_0.single_file_entry() == Some(abs_path@));
        let worktrees = self.worktrees();
        let mut i: usize = 0;
        while i < worktrees.len()
            invariant
                i <= worktrees@.len(),
                forall|rel: &ComponentPath, style: PathStyle| #[trigger]
                    call_requires(*to_rel_path, (rel, style)),
                forall|worktree: u64, rel_path: &String| #[trigger]
                    call_requires(*entry_for_path, (worktree, rel_path)),
                no_entry_before(
                    worktrees@,
                    *cx,
                    abs_path@,
                    style,
                    *to_rel_path,
                    *entry_for_path,
                    i as int,
                ),
                worktrees@ == self@.worktrees(),
                call_ensures(*worktree_for_entry, (entry_id,), answer),
                answer is Some,
                answer->Some_0.single_file_entry() == Some(abs_path@),
                answer->Some_0.path_style == style,
            decreases worktrees@.len() - i,
        {
            let found = look_up(worktrees[i], &abs_path, style, cx, to_rel_path, entry_for_path);
            if found.is_some() {
                return found;
            }
            i += 1;
        }
        None
    }

    /// Removes all libraries surfaced by eager enumeration (called when the
    /// setting is disabled) and forgets manually-dismissed roots so the next
    /// enable starts fresh.
    pub fn remove_enumerated_libraries(&mut self, cx: &mut Context)
        requires
            old(self).wf(),
        ensures
            final(self).wf(),
            final(self)@ == old(self)@.remove_enumerated(),
            final(cx).app == old(cx).app,
            final(cx).asked() == old(cx).asked() + old(self)@.remove_enumerated_effects(),
    {
        self.dismissed_roots = PathSet::new();
        let ghost libraries = old(self)@.libraries;
        let ghost roots = self.libraries.keys();
        proof {
            old(self).lemma_libraries();
        }
        let mut changed = false;
        let mut i: usize = self.libraries.len();
        while i > 0
            invariant
                i <= self.libraries.keys().len(),
                i <= roots.len(),
                self.wf(),
                self.pending_roots == old(self).pending_roots,
                self.enumeration_task == old(self).enumeration_task,
                self.show_all == old(self).show_all,
                self.dismissed_roots@ == Set::<PathView>::empty(),
                libraries == old(self)@.libraries,
                old(self).wf(),
                roots == old(self).libraries.keys(),
                forall|j: int| 0 <= j < i ==> #[trigger] self.libraries.keys()[j] == roots[j],
                forall|j: int|
                    0 <= j < i ==> #[trigger] self.libraries.values()[j]
                        == old(self).libraries.values()[j],
                forall|root: PathView| #[trigger]
                    self@.libraries.contains_key(root) <==> libraries.contains_key(root) && (
                    roots.index_of(root) < i || libraries[root].origin != LibraryOrigin::Enumerated),
                forall|root: PathView| #[trigger]
                    self@.libraries.contains_key(root) ==> self@.libraries[root] == libraries[root],
                changed == exists|root: PathView| #[trigger]
                    libraries.contains_key(root) && roots.index_of(root) >= i && libraries[root].origin
                        == LibraryOrigin::Enumerated,
            decreases i,
        {
            i -= 1;
            let ghost root = roots[i as int];
            proof {
                old(self).lemma_libraries();
                self.lemma_libraries();
                lemma_sorted_position(roots, i as int);
                assert(self.libraries.keys()[i as int] == root);
                assert(libraries.contains_key(root));
                assert(libraries[root] == self.libraries.values()[i as int]@);
            }
            let ghost earlier = self@.libraries;
            if self.libraries.value_at(i).origin == LibraryOrigin::Enumerated {
                let _ = self.libraries.remove_at(i);
                changed = true;
                assert(self@.libraries =~= earlier.remove(root));
            }
            assert forall|other: PathView| #[trigger]
                self@.libraries.contains_key(other) <==> libraries.contains_key(other) && (
                roots.index_of(other) < i || libraries[other].origin != LibraryOrigin::Enumerated) by {
                assert(earlier.contains_key(other) ==> libraries.contains_key(other));
                if libraries.contains_key(other) && roots.index_of(other) == i {
                    assert(other == root);
                }
            }
        }
        assert(self@ =~= old(self)@.remove_enumerated()) by {
            old(self).lemma_libraries();
            assert(self@.libraries =~= old(self)@.remove_enumerated().libraries);
        }
        if changed {
            notify_libraries_changed(cx);
        }
        assert(cx.asked() =~= old(cx).asked() + old(self)@.remove_enumerated_effects()) by {
            old(self).lemma_libraries();
        }
    }

    /// Notes that `buffer_id` was dropped. A library that the user navigated
    /// into leaves the panel with its last buffer, unless libraries are only
    /// removed manually.
    pub fn handle_buffer_dropped(&mut self, buffer_id: BufferId, cx: &mut Context)
        requires
            old(self).wf(),
        ensures
            final(self).wf(),
            final(self)@ == old(self)@.drop_buffer(buffer_id, removal_mode(old(cx).app.settings)),
            final(cx).app == old(cx).app,
            final(cx).asked() == old(cx).asked() + old(self)@.drop_buffer_effects(
                buffer_id,
                removal_mode(old(cx).app.settings),
            ),
    {
        let removal = external_libraries_removal(&cx.app.settings);
        let ghost libraries = old(self)@.libraries;
        let ghost roots = self.libraries.keys();
        proof {
            old(self).lemma_libraries();
        }
        let mut changed = false;
        let mut i: usize = self.libraries.len();
        while i > 0
            invariant
                i <= self.libraries.keys().len(),
                i <= roots.len(),
                self.wf(),
                self.pending_roots == old(self).pending_roots,
                self.dismissed_roots == old(self).dismissed_roots,
                self.enumeration_task == old(self).enumeration_task,
                self.show_all == old(self).show_all,
                libraries == old(self)@.libraries,
                old(self).wf(),
                roots == old(self).libraries.keys(),
                forall|j: int| 0 <= j < i ==> #[trigger] self.libraries.keys()[j] == roots[j],
                forall|j: int|
                    0 <= j < i ==> #[trigger] self.libraries.values()[j]
                        == old(self).libraries.values()[j],
                forall|root: PathView| #[trigger]
                    self@.libraries.contains_key(root) <==> libraries.contains_key(root) && (
                    roots.index_of(root) < i || !libraries[root].leaves_with(buffer_id, removal)),
                forall|root: PathView| #[trigger]
                    self@.libraries.contains_key(root) ==> self@.libraries[root] == if roots.index_of(root)
                        < i {
                        libraries[root]
                    } else {
                        libraries[root].without_buffer(buffer_id)
                    },
                changed == exists|root: PathView| #[trigger]
                    libraries.contains_key(root) && roots.index_of(root) >= i
                        && libraries[root].leaves_with(buffer_id, removal),
            decreases i,
        {
            i -= 1;
            let ghost root = roots[i as int];
            proof {
                old(self).lemma_libraries();
                self.lemma_libraries();
                self.libraries.lemma_contents();
                lemma_sorted_position(roots, i as int);
                assert(self.libraries.keys()[i as int] == root);
                assert(libraries.contains_key(root));
                assert(libraries[root] == self.libraries.values()[i as int]@);
            }
            let ghost before = self.libraries;
            let ghost earlier = self@.libraries;
            let leaves = self.libraries.value_at_mut(i).drop_buffer(buffer_id, removal);
            proof {
                PathMap::lemma_value_changed(before, self.libraries, i as int);
            }
            assert(self@.libraries =~= earlier.insert(root, libraries[root].without_buffer(buffer_id)));
            if leaves {
                let _ = self.libraries.remove_at(i);
                changed = true;
                assert(self@.libraries =~= earlier.remove(root));
            }
            assert forall|other: PathView| #[trigger]
                self@.libraries.contains_key(other) <==> libraries.contains_key(other) && (
                roots.index_of(other) < i || !libraries[other].leaves_with(buffer_id, removal)) by {
                assert(earlier.contains_key(other) ==> libraries.contains_key(other));
                if libraries.contains_key(other) && roots.index_of(other) == i {
                    assert(other == root);
                }
            }
        }
        self.drop_from_pending(buffer_id);
        assert(self@ =~= old(self)@.drop_buffer(buffer_id, removal)) by {
            old(self).lemma_libraries();
            assert(self@.libraries =~= old(self)@.drop_buffer(buffer_id, removal).libraries);
        }
        if changed {
            notify_libraries_changed(cx);
        }
        assert(cx.asked() =~= old(cx).asked() + old(self)@.drop_buffer_effects(buffer_id, removal)) by {
            old(self).lemma_libraries();
        }
    }

    /// Notes at every pending library that `buffer_id` was dropped.
    fn drop_from_pending(&mut self, buffer_id: BufferId)
        requires
            old(self).wf(),
        ensures
            final(self).wf(),
            final(self).libraries == old(self).libraries,
            final(self)@ == (StoreView {
                pending: old(self)@.pending.map_values(
                    |library: PendingView| library.without_buffer(buffer_id),
                ),
                ..old(self)@
            }),
    {
        let ghost roots = self.pending_roots.keys();
        let mut i: usize = 0;
        while i < self.pending_roots.len()
            invariant
                self.wf(),
                old(self).wf(),
                i <= roots.len(),
                self.libraries == old(self).libraries,
                self.dismissed_roots == old(self).dismissed_roots,
                self.enumeration_task == old(self).enumeration_task,
                self.show_all == old(self).show_all,
                self.pending_roots.keys() == roots,
                old(self).pending_roots.keys() == roots,
                forall|j: int|
                    0 <= j < roots.len() ==> (#[trigger] self.pending_roots.values()[j])@ == if j
                        < i {
                        old(self).pending_roots.values()[j]@.without_buffer(buffer_id)
                    } else {
                        old(self).pending_roots.values()[j]@
                    },
            decreases roots.len() - i,
        {
            let ghost before = self.pending_roots;
            self.pending_roots.value_at_mut(i).drop_buffer(buffer_id);
            proof {
                before.lemma_contents();
                PathMap::lemma_value_changed(before, self.pending_roots, i as int);
            }
            i += 1;
        }
        proof {
            old(self).pending_roots.lemma_contents();
            self.pending_roots.lemma_contents();
            let expected = old(self)@.pending.map_values(
                |library: PendingView| library.without_buffer(buffer_id),
            );
            assert(self@.pending.dom() =~= expected.dom());
            assert(self@.pending =~= expected);
        }
    }

    /// Lets `buffer_id` wait for the library at position `i` of the pending
    /// roots.
    fn wait_at(&mut self, i: usize, buffer_id: BufferId)
        requires
            old(self).wf(),
            i < old(self).pending_roots.keys().len(),
        ensures
            final(self).wf(),
            final(self)@ == old(self)@.wait(old(self).pending_roots.keys()[i as int], buffer_id),
    {
        let ghost before = self.pending_roots;
        self.pending_roots.value_at_mut(i).wait(buffer_id);
        proof {
            before.lemma_contents();
            PathMap::lemma_value_changed(before, self.pending_roots, i as int);
            assert(self@ =~= old(self)@.wait(before.keys()[i as int], buffer_id));
        }
    }

    /// Tracks `buffer_id` at the library at position `i`.
    fn track_at(&mut self, i: usize, buffer_id: BufferId)
        requires
            old(self).wf(),
            i < old(self).libraries.keys().len(),
        ensures
            final(self).wf(),
            final(self)@ == old(self)@.track(old(self).libraries.keys()[i as int], buffer_id),
    {
        let ghost before = self.libraries;
        self.libraries.value_at_mut(i).track(buffer_id);
        proof {
            before.lemma_contents();
            PathMap::lemma_value_changed(before, self.libraries, i as int);
            assert(self@ =~= old(self)@.track(before.keys()[i as int], buffer_id));
        }
    }

    /// Reacts to a buffer that was added: if its file lives in an external
    /// package, tracks the buffer there, surfacing the package if need be. A
    /// buffer that comes while the package is being surfaced waits for it.
    /// `is_file` tells whether a path names an existing file.
    pub fn handle_buffer_added<F: Fn(&ComponentPath) -> bool>(
        &mut self,
        buffer: &BufferState,
        is_file: &F,
        cx: &mut Context,
    )
        requires
            old(self).wf(),
            forall|path: &ComponentPath| #[trigger] call_requires(*is_file, (path,)),
        ensures
            final(self).wf(),
            final(cx).app == old(cx).app,
            buffer_added(
                old(self)@,
                old(cx).asked(),
                *buffer,
                old(cx).app,
                *is_file,
                final(self)@,
                final(cx).asked(),
            ),
    {
        let file = match &buffer.file {
            Some(file) => file,
            None => {
                return;
            },
        };
        // Only local files have an absolute path we can resolve.
        let abs_path = match &file.local_abs_path {
            Some(path) => path,
            None => {
                return;
            },
        };
        // Only consider files in non-visible (external) worktrees. Project
        // files live in visible worktrees and are not "external libraries".
        match cx.app.worktree_visibility.get(&file.worktree_id) {
            Some(visible) => {
                if *visible {
                    return;
                }
            },
            None => {
                return;
            },
        }
        assert(buffer.external_file(cx.app) == Some(abs_path@));
        // Locate the enclosing package root. Files without one are
        // intentionally not surfaced.
        let library_root = match resolve_library_root(abs_path, is_file) {
            Some(root) => root,
            None => {
                assert(package_opened(
                    old(self)@,
                    old(cx).asked(),
                    None,
                    buffer.remote_id,
                    self@,
                    cx.asked(),
                ));
                return;
            },
        };
        let ghost root = library_root@;
        match self.libraries.find(&library_root) {
            // Already surfaced: just track this additional buffer.
            Some(i) => {
                self.track_at(i, buffer.remote_id);
                assert(cx.asked() =~= old(cx).asked() + old(self)@.navigate_effects(
                    root,
                    buffer.remote_id,
                ));
            },
            None => match self.pending_roots.find(&library_root) {
                // On its way: track this buffer as soon as it is there.
                Some(i) => {
                    self.wait_at(i, buffer.remote_id);
                    assert(cx.asked() =~= old(cx).asked() + old(self)@.navigate_effects(
                        root,
                        buffer.remote_id,
                    ));
                },
                None => {
                    self.surface_library(
                        library_root,
                        LibraryOrigin::Navigated,
                        Some(buffer.remote_id),
                        cx,
                    );
                },
            },
        }
        assert(package_opened(
            old(self)@,
            old(cx).asked(),
            Some(root),
            buffer.remote_id,
            self@,
            cx.asked(),
        ));
    }

    /// Reacts to what the buffer store reports.
    pub fn handle_buffer_store_event<F: Fn(&ComponentPath) -> bool>(
        &mut self,
        event: &BufferStoreEvent,
        is_file: &F,
        cx: &mut Context,
    )
        requires
            old(self).wf(),
            forall|path: &ComponentPath| #[trigger] call_requires(*is_file, (path,)),
        ensures
            final(self).wf(),
            final(cx).app == old(cx).app,
            match *event {
                BufferStoreEvent::BufferAdded(buffer) => buffer_added(
                    old(self)@,
                    old(cx).asked(),
                    buffer,
                    old(cx).app,
                    *is_file,
                    final(self)@,
                    final(cx).asked(),
                ),
                BufferStoreEvent::BufferDropped(buffer_id) => {
                    let removal = removal_mode(old(cx).app.settings);
                    &&& final(self)@ == old(self)@.drop_buffer(buffer_id, removal)
                    &&& final(cx).asked() == old(cx).asked() + old(self)@.drop_buffer_effects(
                        buffer_id,
                        removal,
                    )
                },
                BufferStoreEvent::Other => final(self)@ == old(self)@ && final(cx).asked() == old(
                    cx,
                ).asked(),
            },
    {
        match event {
            BufferStoreEvent::BufferAdded(buffer) => self.handle_buffer_added(buffer, is_file, cx),
            BufferStoreEvent::BufferDropped(buffer_id) => self.handle_buffer_dropped(*buffer_id, cx),
            BufferStoreEvent::Other => {},
        }
    }

    /// Reacts to what the worktree store reports: while eager enumeration is
    /// enabled, (re-)enumerates whenever a visible worktree is added (e.g. a
    /// project folder is opened).
    pub fn handle_worktree_store_event(&mut self, event: WorktreeStoreEvent, cx: &mut Context)
        requires
            old(self).wf(),
        ensures
            final(self).wf(),
            final(cx).app == old(cx).app,
            if event == (WorktreeStoreEvent::WorktreeAdded { visible: true }) && shows_all(
                old(cx).app.settings,
            ) {
                &&& final(self)@ == old(self)@.schedule()
                &&& final(cx).asked() == old(cx).asked() + old(self)@.schedule_effects()
            } else {
                &&& final(self)@ == old(self)@
                &&& final(cx).asked() == old(cx).asked()
            },
    {
        if let WorktreeStoreEvent::WorktreeAdded { visible } = event {
            if visible && show_all_external_libraries(&cx.app.settings) {
                self.schedule_enumeration(cx);
            }
        }
    }

    /// Enables/disables eager enumeration as the setting changes.
    pub fn handle_settings_changed(&mut self, cx: &mut Context)
        requires
            old(self).wf(),
        ensures
            final(self).wf(),
            final(self)@ == old(self)@.settings_changed(shows_all(old(cx).app.settings)),
            final(cx).app == old(cx).app,
            final(cx).asked() == old(cx).asked() + old(self)@.settings_changed_effects(
                shows_all(old(cx).app.settings),
            ),
    {
        let new_show_all = show_all_external_libraries(&cx.app.settings);
        if new_show_all != self.show_all {
            self.show_all = new_show_all;
            assert(self@ =~= (StoreView { show_all: new_show_all, ..old(self)@ }));
            if new_show_all {
                self.schedule_enumeration(cx);
            } else {
                self.remove_enumerated_libraries(cx);
            }
        } else {
            assert(cx.asked() =~= old(cx).asked() + old(self)@.settings_changed_effects(new_show_all));
        }
    }

    /// Registers a library directory worktree directly, bypassing the
    /// on-demand discovery (test support).
    pub fn register_library_worktree_for_test(
        &mut self,
        library_root: ComponentPath,
        worktree: WorktreeId,
        cx: &mut Context,
    )
        requires
            old(self).wf(),
        ensures
            final(self).wf(),
            final(self)@ == old(self)@.register(library_root@, worktree, LibraryOrigin::Navigated),
            final(cx).app == old(cx).app,
            final(cx).asked() == old(cx).asked() + libraries_changed(),
    {
        self.register_library_worktree_with_origin_for_test(
            library_root,
            worktree,
            LibraryOrigin::Navigated,
            cx,
        );
    }

    /// Like [`Self::register_library_worktree_for_test`], but registers the
    /// library as surfaced by eager enumeration.
    pub fn register_enumerated_library_worktree_for_test(
        &mut self,
        library_root: ComponentPath,
        worktree: WorktreeId,
        cx: &mut Context,
    )
        requires
            old(self).wf(),
        ensures
            final(self).wf(),
            final(self)@ == old(self)@.register(library_root@, worktree, LibraryOrigin::Enumerated),
            final(cx).app == old(cx).app,
            final(cx).asked() == old(cx).asked() + libraries_changed(),
    {
        self.register_library_worktree_with_origin_for_test(
            library_root,
            worktree,
            LibraryOrigin::Enumerated,
            cx,
        );
    }

    fn register_library_worktree_with_origin_for_test(
        &mut self,
        library_root: ComponentPath,
        worktree: WorktreeId,
        origin: LibraryOrigin,
        cx: &mut Context,
    )
        requires
            old(self).wf(),
        ensures
            final(self).wf(),
            final(self)@ == old(self)@.register(library_root@, worktree, origin),
            final(cx).app == old(cx).app,
            final(cx).asked() == old(cx).asked() + libraries_changed(),
    {
        let ghost root = library_root@;
        let _ = self.pending_roots.remove(&library_root);
        self.libraries.insert(library_root, LibraryEntry::new(worktree, origin));
        notify_libraries_changed(cx);
        assert(self@ =~= old(self)@.register(root, worktree, origin));
    }

    /// Marks a library root as pending (directory worktree creation in
    /// flight), as when a buffer's addition starts creating the library
    /// worktree (test support).
    pub fn mark_library_pending_for_test(&mut self, library_root: ComponentPath)
        requires
            old(self).wf(),
        ensures
            final(self).wf(),
            final(self)@ == old(self)@.mark_pending(library_root@),
    {
        if !self.pending_roots.contains_key(&library_root) {
            let ghost root = library_root@;
            self.pending_roots.insert(library_root, PendingLibrary::new());
            assert(self@ =~= old(self)@.mark_pending(root));
        }
    }

    /// Tracks a buffer as referencing the library at `library_root`, without
    /// requiring a real buffer lifecycle (test support).
    pub fn track_buffer_for_test(&mut self, library_root: &ComponentPath, buffer_id: BufferId)
        requires
            old(self).wf(),
        ensures
            final(self).wf(),
            final(self)@ == old(self)@.track(library_root@, buffer_id),
    {
        if let Some(i) = self.libraries.find(library_root) {
            self.track_at(i, buffer_id);
        }
    }

    /// Returns whether the library at `library_root` was surfaced by eager
    /// enumeration (test support).
    pub fn is_enumerated_for_test(&self, library_root: &ComponentPath) -> (result: bool)
        requires
            self.wf(),
        ensures
            result == (self@.libraries.contains_key(library_root@)
                && self@.libraries[library_root@].origin == LibraryOrigin::Enumerated),
    {
        match self.libraries.get(library_root) {
            Some(entry) => entry.origin == LibraryOrigin::Enumerated,
            None => false,
        }
    }

    /// Returns whether the enumerated library at `library_root` was manually
    /// removed and is therefore skipped by re-enumeration (test support).
    pub fn is_dismissed_for_test(&self, library_root: &ComponentPath) -> (result: bool)
        requires
            self.wf(),
        ensures
            result == self@.dismissed.contains(library_root@),
    {
        self.dismissed_roots.contains(library_root)
    }

    /// Simulates the drop of a buffer, driving the same removal logic as the
    /// report of the buffer store (test support).
    pub fn simulate_buffer_dropped_for_test(&mut self, buffer_id: BufferId, cx: &mut Context)
        requires
            old(self).wf(),
        ensures
            final(self).wf(),
            final(self)@ == old(self)@.drop_buffer(buffer_id, removal_mode(old(cx).app.settings)),
            final(cx).app == old(cx).app,
            final(cx).asked() == old(cx).asked() + old(self)@.drop_buffer_effects(
                buffer_id,
                removal_mode(old(cx).app.settings),
            ),
    {
        self.handle_buffer_dropped(buffer_id, cx);
    }
}

} // verus!
