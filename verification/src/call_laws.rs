//! What each call does to the libraries, the pending roots, the dismissed
//! roots and the timer, and what it asks for. The laws speak of these
//! themselves: which roots are there, which buffers, which effects.

use vstd::prelude::*;

use crate::context::{
    App, BufferState, EffectView, ExternalLibrariesEvent, FileState, LibraryOrigin, PathStyle,
};
use crate::enumeration::{listed_paths, Dependency, RunView};
use crate::laws::{
    law_enumeration_surfaces_new_dependencies, law_removal_takes_the_library_out, newly_surfaced,
};
use crate::library_entry::is_library_entry;
use crate::library_root::is_library_root;
use crate::model::{
    buffer_added, enumerate_effects, first_backed_by, libraries_changed, library_of, package_opened,
    StoreView,
};
use crate::path::{lies_under, path_lt, ComponentPath, ComponentView, PathView};
use crate::path_map::{in_path_order, lemma_in_path_order, lists_in_order};
use crate::reading_laws::{
    law_entry_translates_to_the_first_library_that_has_it, law_file_belongs_to_the_package_above_it,
    law_found_package_is_the_nearest, law_paths_in_order_are_the_same_paths,
    law_paths_under_a_root_go_on_from_it,
};
use crate::settings::{shows_all, ExternalLibrariesRemoval};

verus! {

// Announcing, and starting out.

/// A change of the libraries is announced by one event, and then observers are
/// notified.
pub proof fn law_announcement_is_one_event_and_a_notification()
    ensures
        libraries_changed() == seq![
            EffectView::Emit(ExternalLibrariesEvent::LibrariesChanged),
            EffectView::Notify,
        ],
{
}

/// A new store holds nothing, runs no timer, and has seen the setting.
pub proof fn law_new_store_is_empty(show_all: bool)
    ensures
        StoreView::initial(show_all) == (StoreView {
            libraries: Map::empty(),
            pending: Map::empty(),
            dismissed: Set::empty(),
            enumeration_task: None,
            show_all,
        }),
{
}

// Timers and enumeration.

/// Scheduling starts exactly one timer, of half a second, that is not the one
/// which was current; it is the current one from then on, and nothing else
/// changes.
pub proof fn law_scheduling_starts_a_new_timer(state: StoreView)
    ensures
        state.schedule().enumeration_task matches Some(task) && state.enumeration_task != Some(task)
            && state.schedule_effects() == seq![
            EffectView::StartEnumerationTimer { task, delay_ms: 500 },
        ],
        state.schedule().libraries == state.libraries,
        state.schedule().pending == state.pending,
        state.schedule().dismissed == state.dismissed,
        state.schedule().show_all == state.show_all,
{
}

/// An enumeration asks all providers about exactly the roots of the visible
/// worktrees, each once and in path order, if eager enumeration is enabled and
/// there is a provider; otherwise it asks for nothing.
pub proof fn law_enumeration_asks_about_every_visible_root(app: App)
    ensures
        shows_all(app.settings) && app.dependency_providers > 0 ==> enumerate_effects(app).len() == 1
            && (enumerate_effects(app)[0] matches EffectView::ListDependencies { roots, providers }
            && providers == app.dependency_providers && (forall|path: PathView| #[trigger]
            roots.contains(path) <==> exists|i: int|
                0 <= i < app.visible_worktree_roots@.len() && (
                #[trigger] app.visible_worktree_roots@[i])@ == path) && (forall|i: int, j: int|
            0 <= i < j < roots.len() ==> path_lt(#[trigger] roots[i], #[trigger] roots[j]) && roots[i]
                != roots[j])),
        !(shows_all(app.settings) && app.dependency_providers > 0) ==> enumerate_effects(app) == Seq::<
            EffectView,
        >::empty(),
{
    app.lemma_visible_roots();
    law_paths_in_order_are_the_same_paths(app.visible_roots());
}

/// The current timer leads to an enumeration when it elapses, and no other
/// timer leads to anything.
pub proof fn law_only_the_current_timer_enumerates(state: StoreView, task: u64, app: App)
    ensures
        state.enumeration_task == Some(task) ==> state.timer_effects(task, app) == enumerate_effects(
            app,
        ),
        state.enumeration_task != Some(task) ==> state.timer_effects(task, app) == Seq::<
            EffectView,
        >::empty(),
{
}

/// Switching eager enumeration on, in any state that has seen it off, starts
/// exactly one new timer of half a second, whatever timers were started
/// before. When that timer elapses, all providers are asked about all visible
/// roots.
pub proof fn law_enabling_enumerates(state: StoreView, app: App)
    requires
        !state.show_all,
    ensures
        ({
            let on = state.settings_changed(true);
            &&& on.show_all
            &&& on.libraries == state.libraries
            &&& on.pending == state.pending
            &&& on.dismissed == state.dismissed
            &&& on.enumeration_task matches Some(task)
            &&& state.enumeration_task != Some(task)
            &&& state.settings_changed_effects(true) == seq![
                EffectView::StartEnumerationTimer { task, delay_ms: 500 },
            ]
            &&& on.timer_effects(task, app) == enumerate_effects(app)
            &&& shows_all(app.settings) && app.dependency_providers > 0 ==> (on.timer_effects(
                task,
                app,
            ).len() == 1 && (on.timer_effects(task, app)[0] matches EffectView::ListDependencies {
                roots,
                providers,
            } && providers == app.dependency_providers && (forall|i: int|
                0 <= i < app.visible_worktree_roots@.len() ==> roots.contains(
                    (#[trigger] app.visible_worktree_roots@[i])@,
                ))))
        }),
{
    law_enumeration_asks_about_every_visible_root(app);
}

/// Switching eager enumeration off, in any state that has seen it on, takes
/// away the enumerated libraries and no others, and forgets what was
/// dismissed. It is announced if a library went.
pub proof fn law_disabling_takes_enumerated_libraries_away(state: StoreView)
    requires
        state.show_all,
    ensures
        ({
            let off = state.settings_changed(false);
            &&& !off.show_all
            &&& forall|root: PathView| #[trigger]
                off.libraries.contains_key(root) <==> state.libraries.contains_key(root)
                    && state.libraries[root].origin != LibraryOrigin::Enumerated
            &&& forall|root: PathView| #[trigger]
                off.libraries.contains_key(root) ==> off.libraries[root] == state.libraries[root]
            &&& off.pending == state.pending
            &&& forall|root: PathView| !(#[trigger] off.dismissed.contains(root))
            &&& off.enumeration_task == state.enumeration_task
        }),
        (exists|root: PathView| #[trigger]
            state.libraries.contains_key(root) && state.libraries[root].origin
                == LibraryOrigin::Enumerated) ==> state.settings_changed_effects(false) == seq![
            EffectView::Emit(ExternalLibrariesEvent::LibrariesChanged),
            EffectView::Notify,
        ],
        (forall|root: PathView| #[trigger]
            state.libraries.contains_key(root) ==> state.libraries[root].origin
                != LibraryOrigin::Enumerated) ==> state.settings_changed_effects(false) == Seq::<
            EffectView,
        >::empty(),
{
}

/// A change of the settings that leaves eager enumeration as it was does
/// nothing.
pub proof fn law_other_settings_do_nothing(state: StoreView, show_all: bool)
    requires
        state.show_all == show_all,
    ensures
        state.settings_changed(show_all) == state,
        state.settings_changed_effects(show_all) == Seq::<EffectView>::empty(),
{
}

/// Removing the enumerated libraries takes away those and no others, and
/// forgets what was dismissed.
pub proof fn law_enumerated_libraries_are_removed(state: StoreView)
    ensures
        ({
            let after = state.remove_enumerated();
            &&& forall|root: PathView| #[trigger]
                after.libraries.contains_key(root) <==> state.libraries.contains_key(root)
                    && state.libraries[root].origin != LibraryOrigin::Enumerated
            &&& forall|root: PathView| #[trigger]
                after.libraries.contains_key(root) ==> after.libraries[root] == state.libraries[root]
            &&& after.pending == state.pending
            &&& forall|root: PathView| !(#[trigger] after.dismissed.contains(root))
            &&& after.enumeration_task == state.enumeration_task
            &&& after.show_all == state.show_all
        }),
        (exists|root: PathView| #[trigger]
            state.libraries.contains_key(root) && state.libraries[root].origin
                == LibraryOrigin::Enumerated) ==> state.remove_enumerated_effects() == seq![
            EffectView::Emit(ExternalLibrariesEvent::LibrariesChanged),
            EffectView::Notify,
        ],
        (forall|root: PathView| #[trigger]
            state.libraries.contains_key(root) ==> state.libraries[root].origin
                != LibraryOrigin::Enumerated) ==> state.remove_enumerated_effects() == Seq::<
            EffectView,
        >::empty(),
{
}

// Surfacing.

/// Surfacing a library that is neither surfaced nor on its way makes it pending
/// and asks for an invisible worktree at its root; the buffer that the user
/// navigates with waits for it. Surfacing any other library does nothing.
pub proof fn law_surfacing_asks_for_an_invisible_worktree(
    state: StoreView,
    root: PathView,
    origin: LibraryOrigin,
    buffer: Option<u64>,
)
    ensures
        state.libraries.contains_key(root) || state.pending.contains_key(root) ==> state.surface(
            root,
            origin,
            buffer,
        ) == state && state.surface_effects(root, origin, buffer) == Seq::<EffectView>::empty(),
        !state.libraries.contains_key(root) && !state.pending.contains_key(root) ==> {
            let after = state.surface(root, origin, buffer);
            &&& after.libraries == state.libraries
            &&& after.dismissed == state.dismissed
            &&& after.enumeration_task == state.enumeration_task
            &&& after.show_all == state.show_all
            &&& after.pending.contains_key(root)
            &&& after.pending.remove(root) == state.pending
            &&& forall|b: u64| #[trigger]
                after.pending[root].waiting.contains(b) <==> origin == LibraryOrigin::Navigated
                    && buffer == Some(b)
            &&& forall|b: u64| !(#[trigger] after.pending[root].dropped.contains(b))
            &&& state.surface_effects(root, origin, buffer) == seq![
                EffectView::CreateWorktree {
                    library_root: root,
                    visible: false,
                    origin,
                    buffer_id: buffer,
                },
            ]
        },
{
    if !state.libraries.contains_key(root) && !state.pending.contains_key(root) {
        assert(state.surface(root, origin, buffer).pending.remove(root) =~= state.pending);
    }
}

/// Surfacing what an enumeration listed: every listed root that is not
/// dismissed, not surfaced and not on its way becomes pending, with no buffer
/// waiting, and an invisible worktree is asked for there, once. Nothing else
/// changes and nothing else is asked for.
pub proof fn law_every_listed_dependency_is_surfaced(state: StoreView, roots: Seq<PathView>)
    ensures
        ({
            let after = state.discover_all(roots);
            &&& after.libraries == state.libraries
            &&& after.dismissed == state.dismissed
            &&& after.enumeration_task == state.enumeration_task
            &&& after.show_all == state.show_all
            &&& forall|root: PathView| #[trigger]
                after.pending.contains_key(root) <==> state.pending.contains_key(root) || (
                roots.contains(root) && !state.dismissed.contains(root)
                    && !state.libraries.contains_key(root))
            &&& forall|root: PathView| #[trigger]
                state.pending.contains_key(root) ==> after.pending[root] == state.pending[root]
            &&& forall|root: PathView, b: u64|
                #![trigger after.pending[root].waiting.contains(b)]
                #![trigger after.pending[root].dropped.contains(b)]
                after.pending.contains_key(root) && !state.pending.contains_key(root)
                    ==> !after.pending[root].waiting.contains(b)
                    && !after.pending[root].dropped.contains(b)
        }),
        ({
            let effects = state.discover_all_effects(roots);
            &&& forall|i: int|
                0 <= i < effects.len() ==> (#[trigger] effects[i] matches EffectView::CreateWorktree {
                    library_root,
                    visible,
                    origin,
                    buffer_id,
                } && roots.contains(library_root) && !state.dismissed.contains(library_root)
                    && !state.libraries.contains_key(library_root) && !state.pending.contains_key(
                    library_root,
                ) && !visible && origin == LibraryOrigin::Enumerated && buffer_id is None)
            &&& forall|root: PathView|
                #![trigger roots.contains(root)]
                roots.contains(root) && !state.dismissed.contains(root)
                    && !state.libraries.contains_key(root) && !state.pending.contains_key(root)
                    ==> effects.contains(
                    EffectView::CreateWorktree {
                        library_root: root,
                        visible: false,
                        origin: LibraryOrigin::Enumerated,
                        buffer_id: None,
                    },
                )
            &&& forall|i: int, j: int|
                0 <= i < j < effects.len() ==> #[trigger] effects[i] != #[trigger] effects[j]
        }),
{
    law_enumeration_surfaces_new_dependencies(state, roots);
    let effects = state.discover_all_effects(roots);
    assert forall|i: int| 0 <= i < effects.len() implies (
    #[trigger] effects[i] matches EffectView::CreateWorktree {
        library_root,
        visible,
        origin,
        buffer_id,
    } && roots.contains(library_root) && !state.dismissed.contains(library_root)
        && !state.libraries.contains_key(library_root) && !state.pending.contains_key(library_root)
        && !visible && origin == LibraryOrigin::Enumerated && buffer_id is None) by {
        assert(effects.contains(effects[i]));
    }
    assert forall|root: PathView|
        #![trigger roots.contains(root)]
        roots.contains(root) && !state.dismissed.contains(root) && !state.libraries.contains_key(root)
            && !state.pending.contains_key(root) implies effects.contains(
        EffectView::CreateWorktree {
            library_root: root,
            visible: false,
            origin: LibraryOrigin::Enumerated,
            buffer_id: None,
        },
    ) by {
        assert(newly_surfaced(state, roots).contains(root));
        assert(effects.contains(crate::laws::enumerated_request(root)));
    }
}

/// Every dependency of a listing that a run takes in is surfaced with what the
/// run gathered: its worktree is asked for, unless it is dismissed, surfaced or
/// on its way.
pub proof fn law_recorded_dependency_is_surfaced<E>(
    state: StoreView,
    run: RunView,
    dependencies: Vec<Dependency>,
    i: int,
)
    requires
        0 <= i < dependencies@.len(),
    ensures
        ({
            let root = dependencies@[i].source_path@;
            let gathered = run.record(
                listed_paths(Ok::<Vec<Dependency>, E>(dependencies)),
            ).dependencies;
            &&& gathered.contains(root)
            &&& !state.dismissed.contains(root) && !state.libraries.contains_key(root)
                ==> state.discover_all(gathered).pending.contains_key(root)
            &&& !state.dismissed.contains(root) && !state.libraries.contains_key(root)
                && !state.pending.contains_key(root) ==> state.discover_all_effects(
                gathered,
            ).contains(
                EffectView::CreateWorktree {
                    library_root: root,
                    visible: false,
                    origin: LibraryOrigin::Enumerated,
                    buffer_id: None,
                },
            )
        }),
{
    let root = dependencies@[i].source_path@;
    let gathered = run.record(listed_paths(Ok::<Vec<Dependency>, E>(dependencies))).dependencies;
    assert(gathered[run.dependencies.len() + i] == root);
    assert(gathered.contains(root));
    law_every_listed_dependency_is_surfaced(state, gathered);
}

/// Worktrees are asked for in the order in which an enumeration listed their
/// roots: of two of them, the one asked for first was listed before the other
/// was listed at all.
pub proof fn law_dependencies_are_surfaced_in_listed_order(
    state: StoreView,
    roots: Seq<PathView>,
    i: int,
    j: int,
)
    requires
        0 <= i < j < state.discover_all_effects(roots).len(),
    ensures
        state.discover_all_effects(roots)[i] matches EffectView::CreateWorktree {
            library_root: first,
            ..
        } && state.discover_all_effects(roots)[j] matches EffectView::CreateWorktree {
            library_root: second,
            ..
        } && exists|p: int|
            0 <= p < roots.len() && roots[p] == first && forall|q: int|
                0 <= q <= p ==> #[trigger] roots[q] != second,
    decreases roots.len(),
{
    let effects = state.discover_all_effects(roots);
    let before = roots.drop_last();
    let last = roots.last();
    let earlier = state.discover_all_effects(before);
    let middle = state.discover_all(before);
    assert(effects =~= earlier + middle.discover_effects(last));
    law_every_listed_dependency_is_surfaced(state, before);
    law_every_listed_dependency_is_surfaced(state, roots);
    if j < earlier.len() {
        law_dependencies_are_surfaced_in_listed_order(state, before, i, j);
        assert(effects[i] == earlier[i] && effects[j] == earlier[j]);
        if let EffectView::CreateWorktree { library_root: first, .. } = effects[i] {
            if let EffectView::CreateWorktree { library_root: second, .. } = effects[j] {
                let p = choose|p: int|
                    0 <= p < before.len() && before[p] == first && forall|q: int|
                        0 <= q <= p ==> #[trigger] before[q] != second;
                assert(roots[p] == first);
                assert forall|q: int| 0 <= q <= p implies #[trigger] roots[q] != second by {
                    assert(before[q] == roots[q]);
                }
            }
        }
    } else {
        assert(effects[i] == earlier[i]);
        assert(effects[j] == middle.discover_effects(last)[j - earlier.len()]);
        assert(!middle.skips(last));
        if let EffectView::CreateWorktree { library_root: first, .. } = effects[i] {
            assert(before.contains(first));
            let p = before.index_of(first);
            assert(roots[p] == first);
            assert forall|q: int| 0 <= q <= p implies #[trigger] roots[q] != last by {
                assert(before[q] == roots[q]);
                assert(before.contains(before[q]));
            }
        }
    }
}

// Completions.

/// A completion that comes too late, because eager enumeration asked for the
/// worktree, is disabled now, and no buffer waits for it, takes the root off
/// the pending ones and does nothing else.
pub proof fn law_late_completion_does_nothing(
    state: StoreView,
    root: PathView,
    worktree: u64,
    buffer: Option<u64>,
)
    requires
        !(state.pending.contains_key(root) && exists|b: u64|
            state.pending[root].waiting.contains(b)),
    ensures
        ({
            let after = state.finish(root, worktree, LibraryOrigin::Enumerated, buffer, false);
            &&& after.libraries == state.libraries
            &&& after.pending == state.pending.remove(root)
            &&& after.dismissed == state.dismissed
            &&& after.enumeration_task == state.enumeration_task
            &&& after.show_all == state.show_all
            &&& state.finish_effects(root, LibraryOrigin::Enumerated, false) == Seq::<
                EffectView,
            >::empty()
        }),
{
    if state.pending.contains_key(root) {
        assert(state.pending[root].waiting =~= Set::<u64>::empty());
    }
}

/// Any other completion surfaces the library with its worktree, tracks the
/// buffers that wait for it and the one that surfaced it unless that was
/// dropped meanwhile, keeps what the library tracked before and how it was
/// first surfaced, leaves all other libraries alone, and is announced.
pub proof fn law_completion_surfaces_the_library(
    state: StoreView,
    root: PathView,
    worktree: u64,
    origin: LibraryOrigin,
    buffer: Option<u64>,
    show_all: bool,
)
    requires
        origin == LibraryOrigin::Navigated || show_all || (state.pending.contains_key(root) && exists|
            b: u64,
        |
            state.pending[root].waiting.contains(b)),
    ensures
        ({
            let after = state.finish(root, worktree, origin, buffer, show_all);
            &&& after.libraries.contains_key(root)
            &&& after.libraries[root].worktree == worktree
            &&& forall|b: u64| #[trigger]
                after.libraries[root].buffers.contains(b) <==> {
                    ||| state.libraries.contains_key(root) && state.libraries[root].buffers.contains(b)
                    ||| state.pending.contains_key(root) && state.pending[root].waiting.contains(b)
                    ||| buffer == Some(b) && !(state.pending.contains_key(root)
                        && state.pending[root].dropped.contains(b))
                }
            &&& state.libraries.contains_key(root) ==> after.libraries[root].origin
                == state.libraries[root].origin
            &&& !state.libraries.contains_key(root) && show_all ==> after.libraries[root].origin
                == origin
            &&& !state.libraries.contains_key(root) && !show_all ==> after.libraries[root].origin
                == LibraryOrigin::Navigated
            &&& after.libraries.remove(root) == state.libraries.remove(root)
            &&& after.pending == state.pending.remove(root)
            &&& after.dismissed == state.dismissed
            &&& after.enumeration_task == state.enumeration_task
            &&& after.show_all == state.show_all
            &&& state.finish_effects(root, origin, show_all) == seq![
                EffectView::Emit(ExternalLibrariesEvent::LibrariesChanged),
                EffectView::Notify,
            ]
        }),
{
    let after = state.finish(root, worktree, origin, buffer, show_all);
    if state.pending.contains_key(root) {
        if exists|b: u64| state.pending[root].waiting.contains(b) {
            let b = choose|b: u64| state.pending[root].waiting.contains(b);
            assert(state.pending[root].waiting != Set::<u64>::empty());
        }
    }
    assert(after.libraries.remove(root) =~= state.libraries.remove(root));
}

/// A worktree that could not be created takes its root off the pending ones
/// and changes nothing else.
pub proof fn law_failure_forgets_the_root(state: StoreView, root: PathView)
    ensures
        state.abandon(root).pending == state.pending.remove(root),
        state.abandon(root).libraries == state.libraries,
        state.abandon(root).dismissed == state.dismissed,
        state.abandon(root).enumeration_task == state.enumeration_task,
        state.abandon(root).show_all == state.show_all,
{
}

/// A registered library is backed by its worktree, tracks no buffer, has the
/// given origin, and is no longer pending. Nothing else changes.
pub proof fn law_registration_replaces_the_library(
    state: StoreView,
    root: PathView,
    worktree: u64,
    origin: LibraryOrigin,
)
    ensures
        ({
            let after = state.register(root, worktree, origin);
            &&& after.libraries.contains_key(root)
            &&& after.libraries[root].worktree == worktree
            &&& after.libraries[root].origin == origin
            &&& forall|b: u64| !(#[trigger] after.libraries[root].buffers.contains(b))
            &&& after.libraries.remove(root) == state.libraries.remove(root)
            &&& after.pending == state.pending.remove(root)
            &&& after.dismissed == state.dismissed
            &&& after.enumeration_task == state.enumeration_task
            &&& after.show_all == state.show_all
        }),
{
    let after = state.register(root, worktree, origin);
    assert(after.libraries.remove(root) =~= state.libraries.remove(root));
}

/// A root that is marked as pending is pending. If it was, nothing changes;
/// otherwise no buffer waits for it yet.
pub proof fn law_marking_makes_pending(state: StoreView, root: PathView)
    ensures
        state.pending.contains_key(root) ==> state.mark_pending(root) == state,
        !state.pending.contains_key(root) ==> {
            let after = state.mark_pending(root);
            &&& after.pending.contains_key(root)
            &&& forall|b: u64| !(#[trigger] after.pending[root].waiting.contains(b))
            &&& forall|b: u64| !(#[trigger] after.pending[root].dropped.contains(b))
            &&& after.pending.remove(root) == state.pending
            &&& after.libraries == state.libraries
            &&& after.dismissed == state.dismissed
            &&& after.enumeration_task == state.enumeration_task
            &&& after.show_all == state.show_all
        },
{
    if !state.pending.contains_key(root) {
        assert(state.mark_pending(root).pending.remove(root) =~= state.pending);
    }
}

// Buffers.

/// Tracking a buffer at a surfaced library adds it to that library's buffers
/// and changes nothing else; at any other root it does nothing.
pub proof fn law_tracking_adds_the_buffer(state: StoreView, root: PathView, buffer: u64)
    ensures
        !state.libraries.contains_key(root) ==> state.track(root, buffer) == state,
        state.libraries.contains_key(root) ==> {
            let after = state.track(root, buffer);
            &&& after.libraries.contains_key(root)
            &&& forall|b: u64| #[trigger]
                after.libraries[root].buffers.contains(b) <==> b == buffer
                    || state.libraries[root].buffers.contains(b)
            &&& after.libraries[root].worktree == state.libraries[root].worktree
            &&& after.libraries[root].origin == state.libraries[root].origin
            &&& after.libraries.remove(root) == state.libraries.remove(root)
            &&& after.pending == state.pending
            &&& after.dismissed == state.dismissed
            &&& after.enumeration_task == state.enumeration_task
            &&& after.show_all == state.show_all
        },
{
    let after = state.track(root, buffer);
    if state.libraries.contains_key(root) {
        assert(after.libraries.remove(root) =~= state.libraries.remove(root));
    }
}

/// Navigating into a package: a surfaced library tracks the buffer; one that is
/// on its way is waited for by it; for any other, an invisible worktree is
/// asked for, with the buffer waiting for it. Nothing else changes.
pub proof fn law_navigation_tracks_waits_or_surfaces(state: StoreView, root: PathView, buffer: u64)
    ensures
        ({
            let after = state.navigate(root, buffer);
            &&& after.dismissed == state.dismissed
            &&& after.enumeration_task == state.enumeration_task
            &&& after.show_all == state.show_all
            &&& if state.libraries.contains_key(root) {
                &&& after.pending == state.pending
                &&& after.libraries.contains_key(root)
                &&& forall|b: u64| #[trigger]
                    after.libraries[root].buffers.contains(b) <==> b == buffer
                        || state.libraries[root].buffers.contains(b)
                &&& after.libraries[root].worktree == state.libraries[root].worktree
                &&& after.libraries[root].origin == state.libraries[root].origin
                &&& after.libraries.remove(root) == state.libraries.remove(root)
                &&& state.navigate_effects(root, buffer) == Seq::<EffectView>::empty()
            } else {
                &&& after.libraries == state.libraries
                &&& after.pending.contains_key(root)
                &&& after.pending.remove(root) == state.pending.remove(root)
                &&& forall|b: u64| #[trigger]
                    after.pending[root].waiting.contains(b) <==> b == buffer || (
                    state.pending.contains_key(root) && state.pending[root].waiting.contains(b))
                &&& forall|b: u64| #[trigger]
                    after.pending[root].dropped.contains(b) <==> b != buffer
                        && state.pending.contains_key(root) && state.pending[root].dropped.contains(b)
                &&& state.pending.contains_key(root) ==> state.navigate_effects(root, buffer)
                    == Seq::<EffectView>::empty()
                &&& !state.pending.contains_key(root) ==> state.navigate_effects(root, buffer) == seq![
                    EffectView::CreateWorktree {
                        library_root: root,
                        visible: false,
                        origin: LibraryOrigin::Navigated,
                        buffer_id: Some(buffer),
                    },
                ]
            }
        }),
{
    let after = state.navigate(root, buffer);
    assert(after.libraries.remove(root) =~= state.libraries.remove(root));
    assert(after.pending.remove(root) =~= state.pending.remove(root));
}

/// Dropping a buffer takes it off every library. A library leaves the panel
/// exactly if the user navigated into it, this was its only buffer, and
/// libraries are removed automatically; all others keep their worktree, their
/// origin and their other buffers. Every library on its way remembers the
/// buffer as dropped and is no longer waited for by it. It is announced if a
/// library left.
pub proof fn law_drop_takes_the_buffer_off(
    state: StoreView,
    buffer: u64,
    removal: ExternalLibrariesRemoval,
    leaves: spec_fn(PathView) -> bool,
)
    requires
        forall|root: PathView| #[trigger]
            leaves(root) == (state.libraries.contains_key(root) && state.libraries[root].origin
                == LibraryOrigin::Navigated && removal == ExternalLibrariesRemoval::AutoRemove
                && forall|b: u64| #[trigger]
                state.libraries[root].buffers.contains(b) <==> b == buffer),
    ensures
        ({
            let after = state.drop_buffer(buffer, removal);
            &&& forall|root: PathView| #[trigger]
                after.libraries.contains_key(root) <==> state.libraries.contains_key(root) && !leaves(
                    root,
                )
            &&& forall|root: PathView| #[trigger]
                after.libraries.contains_key(root) ==> after.libraries[root].worktree
                    == state.libraries[root].worktree && after.libraries[root].origin
                    == state.libraries[root].origin
            &&& forall|root: PathView, b: u64|
                after.libraries.contains_key(root) ==> (
                #[trigger] after.libraries[root].buffers.contains(b) <==> b != buffer
                    && state.libraries[root].buffers.contains(b))
            &&& forall|root: PathView| #[trigger]
                after.pending.contains_key(root) <==> state.pending.contains_key(root)
            &&& forall|root: PathView, b: u64|
                state.pending.contains_key(root) ==> (
                #[trigger] after.pending[root].waiting.contains(b) <==> b != buffer
                    && state.pending[root].waiting.contains(b))
            &&& forall|root: PathView, b: u64|
                state.pending.contains_key(root) ==> (
                #[trigger] after.pending[root].dropped.contains(b) <==> b == buffer
                    || state.pending[root].dropped.contains(b))
            &&& after.dismissed == state.dismissed
            &&& after.enumeration_task == state.enumeration_task
            &&& after.show_all == state.show_all
        }),
        (exists|root: PathView| #[trigger] leaves(root)) ==> state.drop_buffer_effects(
            buffer,
            removal,
        ) == seq![EffectView::Emit(ExternalLibrariesEvent::LibrariesChanged), EffectView::Notify],
        (forall|root: PathView| !(#[trigger] leaves(root))) ==> state.drop_buffer_effects(
            buffer,
            removal,
        ) == Seq::<EffectView>::empty(),
{
    let after = state.drop_buffer(buffer, removal);
    assert forall|root: PathView| #[trigger] state.libraries.contains_key(root) implies leaves(root)
        == state.libraries[root].leaves_with(buffer, removal) by {
        let buffers = state.libraries[root].buffers;
        if leaves(root) {
            assert(buffers.contains(buffer));
            assert(buffers.remove(buffer) =~= Set::<u64>::empty());
        }
        if state.libraries[root].leaves_with(buffer, removal) {
            assert forall|b: u64| #[trigger] buffers.contains(b) <==> b == buffer by {
                if b != buffer && buffers.contains(b) {
                    assert(buffers.remove(buffer).contains(b));
                }
            }
        }
    }
    if exists|root: PathView| #[trigger] leaves(root) {
        let root = choose|root: PathView| #[trigger] leaves(root);
        assert(state.libraries.contains_key(root));
    }
    if state.loses_library(buffer, removal) {
        let root = choose|root: PathView| #[trigger]
            state.libraries.contains_key(root) && state.libraries[root].leaves_with(buffer, removal);
        assert(leaves(root));
    }
}

/// A buffer that is opened on a local file of an invisible worktree, up to six
/// levels below a package with no package in between, is tracked by the
/// package's library, waits for it, or surfaces it.
pub proof fn law_opened_buffer_reaches_its_package<F: Fn(&ComponentPath) -> bool>(
    before: StoreView,
    asked_before: Seq<EffectView>,
    buffer: BufferState,
    app: App,
    is_file: F,
    after: StoreView,
    asked_after: Seq<EffectView>,
    files: spec_fn(PathView) -> bool,
    packages: spec_fn(PathView) -> bool,
    file: FileState,
    path: ComponentPath,
    package: PathView,
    below: PathView,
)
    requires
        forall|asked: ComponentPath, answer: bool| #[trigger]
            call_ensures(is_file, (&asked,), answer) ==> answer == files(asked@),
        forall|dir: PathView| #[trigger]
            packages(dir) == (
            files(dir.push(ComponentView::Normal(vstd::utf8::encode_utf8("Cargo.toml"@)))) || files(
                dir.push(ComponentView::Normal(vstd::utf8::encode_utf8("package.json"@))),
            ) || files(
                dir.push(ComponentView::Normal(vstd::utf8::encode_utf8("pyproject.toml"@))),
            ) || files(dir.push(ComponentView::Normal(vstd::utf8::encode_utf8("go.mod"@))))),
        packages(package),
        1 <= below.len() <= 6,
        forall|i: int|
            0 <= i < below.len() ==> !((#[trigger] below[i]) is Prefix) && !(below[i] is RootDir),
        forall|k: int| 0 < k < below.len() ==> !packages(package + #[trigger] below.take(k)),
        buffer.file == Some(file),
        file.local_abs_path == Some(path),
        path@ == package + below,
        app.worktree_visibility@.contains_key(file.worktree_id),
        !app.worktree_visibility@[file.worktree_id],
        buffer_added(before, asked_before, buffer, app, is_file, after, asked_after),
    ensures
        before.libraries.contains_key(package) ==> after.libraries.contains_key(package)
            && after.libraries[package].buffers.contains(buffer.remote_id) && asked_after
            == asked_before,
        !before.libraries.contains_key(package) ==> after.pending.contains_key(package)
            && after.pending[package].waiting.contains(buffer.remote_id),
        !before.libraries.contains_key(package) && before.pending.contains_key(package)
            ==> asked_after == asked_before,
        !before.libraries.contains_key(package) && !before.pending.contains_key(package)
            ==> asked_after == asked_before.push(
            EffectView::CreateWorktree {
                library_root: package,
                visible: false,
                origin: LibraryOrigin::Navigated,
                buffer_id: Some(buffer.remote_id),
            },
        ),
        after == before.navigate(package, buffer.remote_id),
        asked_after == asked_before + before.navigate_effects(package, buffer.remote_id),
{
    let root = choose|root: Option<PathView>|
        is_library_root(is_file, path@, root) && #[trigger] package_opened(
            before,
            asked_before,
            root,
            buffer.remote_id,
            after,
            asked_after,
        );
    law_file_belongs_to_the_package_above_it(is_file, files, packages, package, below, root);
    law_navigation_tracks_waits_or_surfaces(before, package, buffer.remote_id);
    assert(asked_before + Seq::<EffectView>::empty() =~= asked_before);
    let request = EffectView::CreateWorktree {
        library_root: package,
        visible: false,
        origin: LibraryOrigin::Navigated,
        buffer_id: Some(buffer.remote_id),
    };
    assert(asked_before + seq![request] =~= asked_before.push(request));
}

/// A buffer that shows no file, a file that is not local, a file of an unknown
/// or a visible worktree, or a file with no package within six levels above
/// it, changes nothing and asks for nothing.
pub proof fn law_other_buffers_are_ignored<F: Fn(&ComponentPath) -> bool>(
    before: StoreView,
    asked_before: Seq<EffectView>,
    buffer: BufferState,
    app: App,
    is_file: F,
    after: StoreView,
    asked_after: Seq<EffectView>,
    files: spec_fn(PathView) -> bool,
    packages: spec_fn(PathView) -> bool,
)
    requires
        forall|asked: ComponentPath, answer: bool| #[trigger]
            call_ensures(is_file, (&asked,), answer) ==> answer == files(asked@),
        forall|dir: PathView| #[trigger]
            packages(dir) == (
            files(dir.push(ComponentView::Normal(vstd::utf8::encode_utf8("Cargo.toml"@)))) || files(
                dir.push(ComponentView::Normal(vstd::utf8::encode_utf8("package.json"@))),
            ) || files(
                dir.push(ComponentView::Normal(vstd::utf8::encode_utf8("pyproject.toml"@))),
            ) || files(dir.push(ComponentView::Normal(vstd::utf8::encode_utf8("go.mod"@))))),
        match buffer.file {
            Some(file) => match file.local_abs_path {
                Some(path) => !app.worktree_visibility@.contains_key(file.worktree_id)
                    || app.worktree_visibility@[file.worktree_id] || forall|k: int|
                    path@.len() - 6 <= k < path@.len() && 0 <= k ==> !packages(
                        #[trigger] path@.take(k),
                    ),
                None => true,
            },
            None => true,
        },
        buffer_added(before, asked_before, buffer, app, is_file, after, asked_after),
    ensures
        after == before,
        asked_after == asked_before,
{
    if let Some(path) = buffer.external_file(app) {
        let root = choose|root: Option<PathView>|
            is_library_root(is_file, path, root) && #[trigger] package_opened(
                before,
                asked_before,
                root,
                buffer.remote_id,
                after,
                asked_after,
            );
        if let Some(root) = root {
            law_found_package_is_the_nearest(is_file, files, packages, path, root);
            assert(packages(path.take(root.len() as int)));
        }
    }
}

// Removing, and what is dismissed.

/// Removing by a worktree that backs no library does nothing. Otherwise one
/// library that it backs, the first in path order, is taken away and no other;
/// it is dismissed if enumeration had surfaced it, and everything that was
/// dismissed before stays so. The change is announced.
pub proof fn law_removal_takes_one_library_and_remembers_it(
    state: StoreView,
    worktree: u64,
    root: PathView,
)
    requires
        state.libraries.dom().finite(),
    ensures
        (forall|other: PathView| #[trigger]
            state.libraries.contains_key(other) ==> state.libraries[other].worktree != worktree)
            ==> state.remove(worktree) == state && state.remove_effects(worktree) == Seq::<
            EffectView,
        >::empty(),
        state.libraries.contains_key(root) && state.libraries[root].worktree == worktree && (forall|
            other: PathView,
        | #[trigger]
            state.libraries.contains_key(other) && state.libraries[other].worktree == worktree
                ==> other == root || path_lt(root, other)) ==> {
            let after = state.remove(worktree);
            &&& after.libraries == state.libraries.remove(root)
            &&& forall|dismissed: PathView| #[trigger]
                after.dismissed.contains(dismissed) <==> state.dismissed.contains(dismissed) || (
                dismissed == root && state.libraries[root].origin == LibraryOrigin::Enumerated)
            &&& after.pending == state.pending
            &&& after.enumeration_task == state.enumeration_task
            &&& after.show_all == state.show_all
            &&& state.remove_effects(worktree) == seq![
                EffectView::Emit(ExternalLibrariesEvent::LibrariesChanged),
                EffectView::Notify,
            ]
        },
        (exists|other: PathView| #[trigger]
            state.libraries.contains_key(other) && state.libraries[other].worktree == worktree)
            ==> exists|first: PathView| #[trigger]
            state.libraries.contains_key(first) && state.libraries[first].worktree == worktree
                && !state.remove(worktree).libraries.contains_key(first),
{
    law_removal_takes_the_library_out(state, worktree);
    if first_backed_by(state.libraries, worktree, root) {
        crate::model::lemma_library_of(state.libraries, worktree, root);
    }
    if let Some(first) = library_of(state.libraries, worktree) {
        assert(state.libraries.contains_key(first));
    }
}

/// Removing two libraries one after the other dismisses both, if enumeration
/// had surfaced them: a later enumeration asks for neither.
pub proof fn law_removals_add_up(
    state: StoreView,
    first: PathView,
    second: PathView,
    roots: Seq<PathView>,
)
    requires
        state.libraries.dom().finite(),
        first != second,
        state.libraries.contains_key(first),
        state.libraries.contains_key(second),
        state.libraries[first].origin == LibraryOrigin::Enumerated,
        state.libraries[second].origin == LibraryOrigin::Enumerated,
        forall|root: PathView| #[trigger]
            state.libraries.contains_key(root) ==> (state.libraries[root].worktree
                == state.libraries[first].worktree ==> root == first) && (
            state.libraries[root].worktree == state.libraries[second].worktree ==> root == second),
    ensures
        ({
            let after = state.remove(state.libraries[first].worktree).remove(
                state.libraries[second].worktree,
            );
            &&& after.libraries == state.libraries.remove(first).remove(second)
            &&& after.dismissed.contains(first)
            &&& after.dismissed.contains(second)
            &&& forall|root: PathView| #[trigger]
                state.dismissed.contains(root) ==> after.dismissed.contains(root)
            &&& forall|i: int|
                0 <= i < after.discover_all_effects(roots).len() ==> (
                #[trigger] after.discover_all_effects(roots)[i] matches EffectView::CreateWorktree {
                    library_root,
                    ..
                } && library_root != first && library_root != second)
        }),
{
    let once = state.remove(state.libraries[first].worktree);
    law_removal_takes_one_library_and_remembers_it(state, state.libraries[first].worktree, first);
    assert(once.libraries == state.libraries.remove(first));
    law_removal_takes_one_library_and_remembers_it(once, state.libraries[second].worktree, second);
    law_every_listed_dependency_is_surfaced(
        once.remove(state.libraries[second].worktree),
        roots,
    );
}

// What the panel sees.

/// The panel shows one worktree for each surfaced library, in the path order of
/// the libraries' roots: the worktree that backs the library.
pub proof fn law_panel_shows_each_library_once(state: StoreView, roots: Seq<PathView>)
    requires
        forall|root: PathView| #[trigger]
            roots.contains(root) <==> state.libraries.contains_key(root),
        forall|i: int, j: int|
            0 <= i < j < roots.len() ==> path_lt(#[trigger] roots[i], #[trigger] roots[j]),
    ensures
        state.worktrees().len() == roots.len(),
        forall|i: int|
            0 <= i < roots.len() ==> state.worktrees()[i] == state.libraries[
                #[trigger] roots[i]
            ].worktree,
{
    assert(lists_in_order(roots, state.libraries.dom()));
    lemma_in_path_order(roots, state.libraries.dom());
}

/// A file is expected exactly if it lies strictly below a root that is on its
/// way, or strictly below the current root of a worktree that backs a
/// surfaced library.
pub proof fn law_files_below_libraries_are_expected(state: StoreView, path: PathView, app: App)
    ensures
        state.expects(path, app) <==> {
            ||| exists|root: PathView| #[trigger]
                state.pending.contains_key(root) && root.len() < path.len() && forall|i: int|
                    0 <= i < root.len() ==> #[trigger] path[i] == root[i]
            ||| exists|root: PathView| #[trigger]
                state.libraries.contains_key(root) && app.worktree_roots@.contains_key(
                    state.libraries[root].worktree,
                ) && app.worktree_roots@[state.libraries[root].worktree]@.len() < path.len() && forall|
                    i: int,
                |
                    0 <= i < app.worktree_roots@[state.libraries[root].worktree]@.len()
                        ==> #[trigger] path[i]
                        == app.worktree_roots@[state.libraries[root].worktree]@[i]
        },
{
    assert forall|root: PathView| #[trigger]
        lies_under(path, root) <==> root.len() < path.len() && forall|i: int|
            0 <= i < root.len() ==> #[trigger] path[i] == root[i] by {
        law_paths_under_a_root_go_on_from_it(path, root, Seq::empty());
    }
    let direct = {
        ||| exists|root: PathView| #[trigger]
            state.pending.contains_key(root) && lies_under(path, root)
        ||| exists|root: PathView| #[trigger]
            state.libraries.contains_key(root) && app.worktree_roots@.contains_key(
                state.libraries[root].worktree,
            ) && lies_under(path, app.worktree_roots@[state.libraries[root].worktree]@)
    };
    assert(state.expects(path, app) == direct);
}

/// An entry whose path is at or below the root of a worktree that backs a
/// surfaced library, at however many levels, and which that worktree has, is
/// translated to an entry; it is translated only to entries that worktrees of
/// surfaced libraries have for its path.
pub proof fn law_entry_of_a_surfaced_library_is_found<
    R: Fn(&ComponentPath, PathStyle) -> Option<String>,
    E: Fn(u64, &String) -> Option<u64>,
>(
    state: StoreView,
    app: App,
    path: PathView,
    style: PathStyle,
    to_rel_path: R,
    entry_for_path: E,
    forms: spec_fn(PathView, PathStyle) -> Option<Seq<char>>,
    entries: spec_fn(u64, Seq<char>) -> Option<u64>,
    entry_in: spec_fn(u64) -> Option<u64>,
    found: Option<u64>,
)
    requires
        state.libraries.dom().finite(),
        forall|rel: ComponentPath, asked: PathStyle, form: Option<String>| #[trigger]
            call_ensures(to_rel_path, (&rel, asked), form) ==> match form {
                Some(form) => forms(rel@, asked) == Some(form@),
                None => forms(rel@, asked) is None,
            },
        forall|worktree: u64, form: String, entry: Option<u64>| #[trigger]
            call_ensures(entry_for_path, (worktree, &form), entry) ==> entry == entries(
                worktree,
                form@,
            ),
        forall|worktree: u64| #[trigger]
            entry_in(worktree) == if app.worktree_roots@.contains_key(worktree)
                && app.worktree_roots@[worktree]@.is_prefix_of(path) {
                match forms(path.skip(app.worktree_roots@[worktree]@.len() as int), style) {
                    Some(form) => entries(worktree, form),
                    None => None,
                }
            } else {
                None
            },
        is_library_entry(state.worktrees(), app, path, style, to_rel_path, entry_for_path, found),
    ensures
        found is Some <==> exists|root: PathView| #[trigger]
            state.libraries.contains_key(root) && entry_in(state.libraries[root].worktree) is Some,
        found matches Some(entry) ==> exists|root: PathView| #[trigger]
            state.libraries.contains_key(root) && entry_in(state.libraries[root].worktree) == Some(
                entry,
            ) && forall|other: PathView| #[trigger]
                state.libraries.contains_key(other) && path_lt(other, root) ==> entry_in(
                    state.libraries[other].worktree,
                ) is None,
{
    law_entry_translates_to_the_first_library_that_has_it(
        state.worktrees(),
        app,
        path,
        style,
        to_rel_path,
        entry_for_path,
        forms,
        entries,
        entry_in,
        found,
    );
    law_paths_in_order_are_the_same_paths(state.libraries.dom());
    let roots = in_path_order(state.libraries.dom());
    let worktrees = state.worktrees();
    assert(roots.len() == worktrees.len());
    assert forall|i: int| 0 <= i < roots.len() implies worktrees[i]
        == state.libraries[#[trigger] roots[i]].worktree && state.libraries.contains_key(roots[i]) by {
        assert(roots.contains(roots[i]));
    }
    match found {
        Some(entry) => {
            let i = choose|i: int|
                0 <= i < worktrees.len() && entry_in(#[trigger] worktrees[i]) == Some(entry) && forall|
                    j: int,
                |
                    0 <= j < i ==> entry_in(#[trigger] worktrees[j]) is None;
            let root = roots[i];
            assert(state.libraries.contains_key(root));
            assert forall|other: PathView| #[trigger]
                state.libraries.contains_key(other) && path_lt(other, root) implies entry_in(
                state.libraries[other].worktree,
            ) is None by {
                assert(state.libraries.dom().contains(other));
                assert(roots.contains(other));
                let j = roots.index_of(other);
                assert(roots[j] == other);
                if j > i {
                    assert(path_lt(roots[i], roots[j]));
                    crate::path::lemma_path_lt_transitive(other, root, other);
                }
                crate::path::lemma_path_lt_irreflexive(other);
                assert(j < i);
                assert(entry_in(worktrees[j]) is None);
            }
        },
        None => {
            assert forall|root: PathView| #[trigger] state.libraries.contains_key(root) implies entry_in(
                state.libraries[root].worktree,
            ) is None by {
                assert(state.libraries.dom().contains(root));
                assert(roots.contains(root));
                let j = roots.index_of(root);
                assert(roots[j] == root);
                assert(entry_in(worktrees[j]) is None);
            }
        },
    }
}

} // verus!
