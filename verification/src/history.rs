//! What holds of the store in every state that it can reach.

use vstd::prelude::*;

use crate::context::{EffectView, LibraryOrigin};
use crate::laws::{
    enumerated_request, law_enumeration_surfaces_new_dependencies, newly_surfaced,
};
use crate::model::{libraries_changed, library_of, LibraryView, StoreView};
use crate::path::PathView;
use crate::settings::ExternalLibrariesRemoval;

verus! {

/// Why a worktree was asked for.
pub struct Request {
    /// How its library is to be surfaced.
    pub origin: LibraryOrigin,
    /// The buffer that surfaces the library, if one does.
    pub buffer: Option<u64>,
}

/// The store together with what has happened around it.
pub struct History {
    pub store: StoreView,
    /// The worktrees that the store has asked for and that are not ready yet.
    pub in_flight: Map<PathView, Request>,
    /// The buffers that were opened on files of packages and not dropped since.
    pub open: Set<u64>,
    /// The packages that these buffers were opened in, as long as the package's
    /// library has not been removed since.
    pub visits: Set<(PathView, u64)>,
}

/// Something that happens to the store.
pub enum Step {
    /// An enumeration is scheduled.
    Schedule,
    /// A buffer is opened on a file of the package at `root`.
    Navigate { root: PathView, buffer: u64 },
    /// An enumeration lists the dependencies at `roots`.
    Discover { roots: Seq<PathView> },
    /// A worktree that was asked for is ready.
    Ready { root: PathView, worktree: u64 },
    /// A worktree that was asked for could not be created.
    Failed { root: PathView },
    /// A buffer is dropped.
    Drop { buffer: u64, removal: ExternalLibrariesRemoval },
    /// The user removes the library that `worktree` backs.
    Remove { worktree: u64 },
    /// The settings change. Between two such steps they are as the store saw
    /// them last.
    Settings { show_all: bool },
}

impl History {
    /// A store that has just been made.
    pub open spec fn start(show_all: bool) -> History {
        History {
            store: StoreView::initial(show_all),
            in_flight: Map::empty(),
            open: Set::empty(),
            visits: Set::empty(),
        }
    }

    /// A step can happen: only worktrees that were asked for become ready or
    /// fail.
    pub open spec fn allows(self, step: Step) -> bool {
        match step {
            Step::Ready { root, .. } => self.in_flight.contains_key(root),
            Step::Failed { root } => self.in_flight.contains_key(root),
            _ => true,
        }
    }

    /// The store after a step.
    pub open spec fn store_after(self, step: Step) -> StoreView {
        match step {
            Step::Schedule => self.store.schedule(),
            Step::Navigate { root, buffer } => self.store.navigate(root, buffer),
            Step::Discover { roots } => self.store.discover_all(roots),
            Step::Ready { root, worktree } => self.store.finish(
                root,
                worktree,
                self.in_flight[root].origin,
                self.in_flight[root].buffer,
                self.store.show_all,
            ),
            Step::Failed { root } => self.store.abandon(root),
            Step::Drop { buffer, removal } => self.store.drop_buffer(buffer, removal),
            Step::Remove { worktree } => self.store.remove(worktree),
            Step::Settings { show_all } => self.store.settings_changed(show_all),
        }
    }

    /// What the store asks for in a step.
    pub open spec fn effects_of(self, step: Step) -> Seq<EffectView> {
        match step {
            Step::Schedule => self.store.schedule_effects(),
            Step::Navigate { root, buffer } => self.store.navigate_effects(root, buffer),
            Step::Discover { roots } => self.store.discover_all_effects(roots),
            Step::Ready { root, .. } => self.store.finish_effects(
                root,
                self.in_flight[root].origin,
                self.store.show_all,
            ),
            Step::Failed { .. } => libraries_changed(),
            Step::Drop { buffer, removal } => self.store.drop_buffer_effects(buffer, removal),
            Step::Remove { worktree } => self.store.remove_effects(worktree),
            Step::Settings { show_all } => self.store.settings_changed_effects(show_all),
        }
    }

    /// The step takes the library at `root` away: its worktree could not be
    /// created, the user removes it, or enumeration surfaced it and is
    /// disabled.
    pub open spec fn takes_away(self, step: Step, root: PathView) -> bool {
        match step {
            Step::Failed { root: failed } => failed == root,
            Step::Remove { worktree } => library_of(self.store.libraries, worktree) == Some(root),
            Step::Settings { show_all } => self.store.show_all && !show_all
                && self.store.libraries.contains_key(root) && self.store.libraries[root].origin
                == LibraryOrigin::Enumerated,
            _ => false,
        }
    }

    /// The open buffers after a step.
    pub open spec fn open_after(self, step: Step) -> Set<u64> {
        match step {
            Step::Navigate { buffer, .. } => self.open.insert(buffer),
            Step::Drop { buffer, .. } => self.open.remove(buffer),
            _ => self.open,
        }
    }

    /// The packages that the open buffers were opened in, after a step.
    pub open spec fn visits_after(self, step: Step) -> Set<(PathView, u64)> {
        match step {
            Step::Navigate { root, buffer } => self.visits.insert((root, buffer)),
            Step::Drop { buffer, .. } => self.visits.filter(|visit: (PathView, u64)| visit.1 != buffer),
            _ => self.visits.filter(|visit: (PathView, u64)| !self.takes_away(step, visit.0)),
        }
    }

    /// The requests in flight after a step.
    pub open spec fn in_flight_after(self, step: Step) -> Map<PathView, Request> {
        match step {
            Step::Navigate { root, buffer } => if self.store.knows(root) {
                self.in_flight
            } else {
                self.in_flight.insert(
                    root,
                    Request { origin: LibraryOrigin::Navigated, buffer: Some(buffer) },
                )
            },
            Step::Discover { roots } => Map::new(
                |root: PathView|
                    self.in_flight.contains_key(root) || newly_surfaced(self.store, roots).contains(root),
                |root: PathView|
                    if self.in_flight.contains_key(root) {
                        self.in_flight[root]
                    } else {
                        Request { origin: LibraryOrigin::Enumerated, buffer: None }
                    },
            ),
            Step::Ready { root, .. } => self.in_flight.remove(root),
            Step::Failed { root } => self.in_flight.remove(root),
            _ => self.in_flight,
        }
    }

    /// The history after a step.
    pub open spec fn after(self, step: Step) -> History {
        History {
            store: self.store_after(step),
            in_flight: self.in_flight_after(step),
            open: self.open_after(step),
            visits: self.visits_after(step),
        }
    }

    /// The history after several steps.
    pub open spec fn after_all(self, steps: Seq<Step>) -> History
        decreases steps.len(),
    {
        if steps.len() == 0 {
            self
        } else {
            self.after_all(steps.drop_last()).after(steps.last())
        }
    }

    /// Several steps can happen one after the other.
    pub open spec fn allows_all(self, steps: Seq<Step>) -> bool
        decreases steps.len(),
    {
        steps.len() == 0 || self.allows_all(steps.drop_last()) && self.after_all(
            steps.drop_last(),
        ).allows(steps.last())
    }

    /// The library at `root` tracks `buffer`, or is on its way and waited for
    /// by it.
    pub open spec fn follows(self, root: PathView, buffer: u64) -> bool {
        ||| self.store.libraries.contains_key(root) && self.store.libraries[root].buffers.contains(
            buffer,
        )
        ||| self.store.pending.contains_key(root) && self.store.pending[root].waiting.contains(
            buffer,
        )
    }

    /// What every reachable state satisfies.
    pub open spec fn consistent(self) -> bool {
        // The pending roots are those whose worktree was asked for and is not
        // ready yet.
        &&& self.in_flight.dom() == self.store.pending.dom()
        // The buffer that a worktree was asked for with waits for it, or was
        // dropped meanwhile.
        &&& forall|root: PathView| #[trigger]
            self.in_flight.contains_key(root) ==> (self.in_flight[root].buffer matches Some(buffer)
                ==> self.store.pending[root].waiting.contains(buffer)
                || self.store.pending[root].dropped.contains(buffer))
        // No library is pending and surfaced at the same time.
        &&& forall|root: PathView| #[trigger]
            self.store.pending.contains_key(root) ==> !self.store.libraries.contains_key(root)
        // A library follows exactly the buffers that were opened in its package
        // and not dropped since, and all of these are open.
        &&& forall|root: PathView, buffer: u64| #[trigger]
            self.follows(root, buffer) <==> self.visits.contains((root, buffer))
        &&& forall|root: PathView, buffer: u64| #[trigger]
            self.visits.contains((root, buffer)) ==> self.open.contains(buffer)
        // A dismissed library is not surfaced by enumeration, and not on its
        // way there.
        &&& forall|root: PathView| #[trigger]
            self.store.dismissed.contains(root) ==> !(self.store.libraries.contains_key(root)
                && self.store.libraries[root].origin == LibraryOrigin::Enumerated) && !(
            self.in_flight.contains_key(root) && self.in_flight[root].origin
                == LibraryOrigin::Enumerated)
        // While eager enumeration is disabled there are no enumerated
        // libraries, and none that the user dismissed.
        &&& !self.store.show_all ==> !self.store.has_enumerated() && self.store.dismissed == Set::<
            PathView,
        >::empty()
    }
}

/// A newly made store is consistent.
pub proof fn law_start_is_consistent(show_all: bool)
    ensures
        History::start(show_all).consistent(),
{
    let start = History::start(show_all);
    assert(start.in_flight.dom() =~= start.store.pending.dom());
}

/// Every step keeps the store consistent.
pub proof fn law_step_keeps_consistency(history: History, step: Step)
    requires
        history.consistent(),
        history.allows(step),
    ensures
        history.after(step).consistent(),
{
    let after = history.after(step);
    match step {
        Step::Discover { roots } => {
            law_enumeration_surfaces_new_dependencies(history.store, roots);
        },
        _ => {},
    }
    if let Step::Remove { worktree } = step {
        if let Some(root) = library_of(history.store.libraries, worktree) {
            lemma_library_of_is_surfaced(history.store.libraries, worktree, root);
        }
    }
    assert(after.in_flight.dom() =~= after.store.pending.dom());
    lemma_step_keeps_follows(history, step);
    if !after.store.show_all {
        assert forall|root: PathView| #[trigger]
            after.store.libraries.contains_key(root) implies after.store.libraries[root].origin
            != LibraryOrigin::Enumerated by {
            if history.store.libraries.contains_key(root) && !history.store.show_all {
                assert(history.store.libraries[root].origin != LibraryOrigin::Enumerated);
            }
        }
        assert(after.store.dismissed =~= Set::<PathView>::empty());
    }
}

/// After a step, a library follows the buffers that were opened in its package
/// and not dropped since.
proof fn lemma_step_keeps_follows(history: History, step: Step)
    requires
        history.consistent(),
        history.allows(step),
    ensures
        forall|root: PathView, buffer: u64| #[trigger]
            history.after(step).follows(root, buffer) <==> history.after(step).visits.contains(
                (root, buffer),
            ),
        forall|root: PathView, buffer: u64| #[trigger]
            history.after(step).visits.contains((root, buffer)) ==> history.after(
                step,
            ).open.contains(buffer),
{
    let after = history.after(step);
    if let Step::Discover { roots } = step {
        law_enumeration_surfaces_new_dependencies(history.store, roots);
    }
    if let Step::Remove { worktree } = step {
        if let Some(root) = library_of(history.store.libraries, worktree) {
            lemma_library_of_is_surfaced(history.store.libraries, worktree, root);
        }
    }
    assert forall|root: PathView, buffer: u64| #[trigger]
        after.follows(root, buffer) <==> after.visits.contains((root, buffer)) by {
        assert(history.follows(root, buffer) <==> history.visits.contains((root, buffer)));
    }
    assert forall|root: PathView, buffer: u64| #[trigger]
        after.visits.contains((root, buffer)) implies after.open.contains(buffer) by {
        if history.visits.contains((root, buffer)) {
            assert(history.open.contains(buffer));
        }
    }
}

/// The library of a worktree is a surfaced one.
proof fn lemma_library_of_is_surfaced(
    libraries: Map<PathView, LibraryView>,
    worktree: u64,
    root: PathView,
)
    requires
        library_of(libraries, worktree) == Some(root),
    ensures
        libraries.contains_key(root),
        libraries[root].worktree == worktree,
{
}

/// Every state that the store reaches is consistent.
pub proof fn law_reachable_states_are_consistent(show_all: bool, steps: Seq<Step>)
    requires
        History::start(show_all).allows_all(steps),
    ensures
        History::start(show_all).after_all(steps).consistent(),
    decreases steps.len(),
{
    if steps.len() == 0 {
        law_start_is_consistent(show_all);
    } else {
        law_reachable_states_are_consistent(show_all, steps.drop_last());
        law_step_keeps_consistency(
            History::start(show_all).after_all(steps.drop_last()),
            steps.last(),
        );
    }
}

/// Whenever the set of surfaced libraries changes, the store emits that it
/// did and notifies its observers.
pub proof fn law_changes_are_announced(history: History, step: Step)
    ensures
        history.after(step).store.libraries.dom() != history.store.libraries.dom()
            ==> history.effects_of(step) == libraries_changed(),
{
    let before = history.store;
    let after = history.after(step).store;
    match step {
        Step::Discover { roots } => {
            law_enumeration_surfaces_new_dependencies(before, roots);
        },
        Step::Navigate { root, buffer } => {
            assert(after.libraries.dom() =~= before.libraries.dom());
        },
        Step::Drop { buffer, removal } => {
            if !before.loses_library(buffer, removal) {
                assert(after.libraries.dom() =~= before.libraries.dom());
            }
        },
        Step::Settings { show_all } => {
            if !before.has_enumerated() {
                assert(after.libraries.dom() =~= before.libraries.dom());
            }
        },
        _ => {},
    }
}

/// How a library was first surfaced does not change while it stays surfaced.
pub proof fn law_origin_is_kept(history: History, step: Step, root: PathView)
    requires
        history.store.libraries.contains_key(root),
        history.after(step).store.libraries.contains_key(root),
    ensures
        history.after(step).store.libraries[root].origin == history.store.libraries[root].origin,
{
    if let Step::Discover { roots } = step {
        law_enumeration_surfaces_new_dependencies(history.store, roots);
    }
}

/// A library is surfaced only when its worktree is ready, in the way that it
/// was asked for, and then tracks the buffers that wait for it.
pub proof fn law_libraries_appear_when_ready(history: History, step: Step, root: PathView)
    requires
        !history.store.libraries.contains_key(root),
        history.after(step).store.libraries.contains_key(root),
    ensures
        step matches Step::Ready { root: ready, worktree, .. } && ready == root
            && history.after(step).store.libraries[root].worktree == worktree
            && history.after(step).store.libraries[root].origin == StoreView::origin_when_ready(
            history.in_flight[root].origin,
            history.store.show_all,
        ) && history.after(step).store.libraries[root].buffers == history.store.followed(
            root,
            history.in_flight[root].buffer,
        ),
{
    if let Step::Discover { roots } = step {
        law_enumeration_surfaces_new_dependencies(history.store, roots);
    }
}

/// A worktree is asked for exactly when a root becomes pending, so that no
/// root has two worktrees in flight. Every worktree that is asked for is
/// invisible, and in flight from then on as it was asked for.
pub proof fn law_requests_match_pending_roots(history: History, step: Step, root: PathView)
    requires
        history.consistent(),
    ensures
        (exists|i: int|
            0 <= i < history.effects_of(step).len() && (
            #[trigger] history.effects_of(step)[i] matches EffectView::CreateWorktree {
                library_root,
                ..
            } && library_root == root)) <==> (history.after(step).store.pending.contains_key(root)
            && !history.store.pending.contains_key(root)),
        forall|i: int|
            0 <= i < history.effects_of(step).len() ==> (
            #[trigger] history.effects_of(step)[i] matches EffectView::CreateWorktree {
                library_root,
                visible,
                origin,
                buffer_id,
            } ==> !visible && history.after(step).in_flight.contains_key(library_root)
                && history.after(step).in_flight[library_root] == (Request {
                origin,
                buffer: buffer_id,
            })),
{
    let effects = history.effects_of(step);
    match step {
        Step::Discover { roots } => {
            law_enumeration_surfaces_new_dependencies(history.store, roots);
            assert forall|i: int| 0 <= i < effects.len() implies exists|other: PathView|
                newly_surfaced(history.store, roots).contains(other) && #[trigger] effects[i]
                    == #[trigger] enumerated_request(other) by {
                assert(effects.contains(effects[i]));
            }
            if newly_surfaced(history.store, roots).contains(root) {
                assert(effects.contains(enumerated_request(root)));
            }
            assert forall|other: PathView|
                newly_surfaced(history.store, roots).contains(other) implies #[trigger] history.after(
                step,
            ).in_flight[other] == (Request { origin: LibraryOrigin::Enumerated, buffer: None }) by {
                assert(history.in_flight.dom().contains(other)
                    == history.store.pending.dom().contains(other));
            }
        },
        Step::Navigate { root: opened, buffer } => {
            if !history.store.knows(opened) {
                assert(effects[0] is CreateWorktree);
            }
        },
        _ => {},
    }
}

/// Every buffer that a library tracks, or that waits for one, is open: it was
/// opened on a file of that library's package and not dropped since.
pub proof fn law_followed_buffers_are_open(
    show_all: bool,
    steps: Seq<Step>,
    root: PathView,
    buffer: u64,
)
    requires
        History::start(show_all).allows_all(steps),
        History::start(show_all).after_all(steps).follows(root, buffer),
    ensures
        History::start(show_all).after_all(steps).open.contains(buffer),
{
    law_reachable_states_are_consistent(show_all, steps);
    let now = History::start(show_all).after_all(steps);
    assert(now.visits.contains((root, buffer)));
}

/// None of the steps drops `buffer` or takes the library at `root` away.
pub open spec fn leaves_alone(
    history: History,
    steps: Seq<Step>,
    root: PathView,
    buffer: u64,
) -> bool
    decreases steps.len(),
{
    steps.len() == 0 || {
        &&& leaves_alone(history, steps.drop_last(), root, buffer)
        &&& !history.after_all(steps.drop_last()).takes_away(steps.last(), root)
        &&& !(steps.last() matches Step::Drop { buffer: dropped, .. } && dropped == buffer)
    }
}

/// Every buffer that is opened on a file of a package is followed by the
/// package's library until the buffer is dropped or the library is taken away,
/// whatever else happens in between.
pub proof fn law_opened_buffer_stays_followed(
    history: History,
    root: PathView,
    buffer: u64,
    steps: Seq<Step>,
)
    requires
        history.consistent(),
        history.after(Step::Navigate { root, buffer }).allows_all(steps),
        leaves_alone(history.after(Step::Navigate { root, buffer }), steps, root, buffer),
    ensures
        history.after(Step::Navigate { root, buffer }).after_all(steps).consistent(),
        history.after(Step::Navigate { root, buffer }).after_all(steps).follows(root, buffer),
    decreases steps.len(),
{
    let opened = history.after(Step::Navigate { root, buffer });
    if steps.len() == 0 {
        law_step_keeps_consistency(history, Step::Navigate { root, buffer });
        assert(opened.visits.contains((root, buffer)));
    } else {
        let before = opened.after_all(steps.drop_last());
        law_opened_buffer_stays_followed(history, root, buffer, steps.drop_last());
        law_step_keeps_consistency(before, steps.last());
        assert(before.visits.contains((root, buffer)));
        assert(opened.after_all(steps) == before.after(steps.last()));
        assert(before.after(steps.last()).visits.contains((root, buffer)));
    }
}

/// None of the steps opens `buffer`.
pub open spec fn never_opens(steps: Seq<Step>, buffer: u64) -> bool {
    forall|i: int|
        0 <= i < steps.len() ==> !(#[trigger] steps[i] matches Step::Navigate { buffer: opened, .. }
            && opened == buffer)
}

/// Once a buffer is dropped, no library follows it until it is opened again,
/// whatever worktrees become ready in between.
pub proof fn law_dropped_buffer_stays_unfollowed(
    history: History,
    buffer: u64,
    removal: ExternalLibrariesRemoval,
    steps: Seq<Step>,
    root: PathView,
)
    requires
        history.consistent(),
        history.after(Step::Drop { buffer, removal }).allows_all(steps),
        never_opens(steps, buffer),
    ensures
        history.after(Step::Drop { buffer, removal }).after_all(steps).consistent(),
        !history.after(Step::Drop { buffer, removal }).after_all(steps).follows(root, buffer),
    decreases steps.len(),
{
    let dropped = history.after(Step::Drop { buffer, removal });
    if steps.len() == 0 {
        law_step_keeps_consistency(history, Step::Drop { buffer, removal });
        assert(!dropped.visits.contains((root, buffer)));
    } else {
        let before = dropped.after_all(steps.drop_last());
        assert forall|i: int| 0 <= i < steps.drop_last().len() implies !(
        #[trigger] steps.drop_last()[i] matches Step::Navigate { buffer: opened, .. } && opened
            == buffer) by {
            assert(steps.drop_last()[i] == steps[i]);
        }
        law_dropped_buffer_stays_unfollowed(history, buffer, removal, steps.drop_last(), root);
        law_step_keeps_consistency(before, steps.last());
        assert(steps.last() == steps[steps.len() - 1]);
        assert(!before.visits.contains((root, buffer)));
        assert(!before.after(steps.last()).visits.contains((root, buffer)));
    }
}

/// A dismissed root stays dismissed in every step but the one that disables
/// eager enumeration, and nothing becomes dismissed but an enumerated library
/// that the user removes.
pub proof fn law_dismissal_lasts(history: History, step: Step, root: PathView)
    ensures
        history.store.dismissed.contains(root) && !(step matches Step::Settings { show_all }
            && !show_all && history.store.show_all) ==> history.after(step).store.dismissed.contains(
            root,
        ),
        !history.store.dismissed.contains(root) && history.after(step).store.dismissed.contains(root)
            ==> (step matches Step::Remove { worktree } && history.store.libraries.contains_key(root)
            && history.store.libraries[root].worktree == worktree
            && history.store.libraries[root].origin == LibraryOrigin::Enumerated),
{
    if let Step::Discover { roots } = step {
        law_enumeration_surfaces_new_dependencies(history.store, roots);
    }
    if let Step::Remove { worktree } = step {
        if let Some(removed) = library_of(history.store.libraries, worktree) {
            lemma_library_of_is_surfaced(history.store.libraries, worktree, removed);
        }
    }
}

/// Once an enumerated library has been dismissed, no enumeration asks for it
/// until eager enumeration is disabled, whatever else happens in between.
pub proof fn law_dismissed_library_is_not_enumerated(
    history: History,
    steps: Seq<Step>,
    root: PathView,
    roots: Seq<PathView>,
)
    requires
        history.store.dismissed.contains(root),
        forall|i: int|
            0 <= i < steps.len() ==> !(#[trigger] steps[i] matches Step::Settings { show_all }
                && !show_all),
    ensures
        history.after_all(steps).store.dismissed.contains(root),
        forall|i: int|
            0 <= i < history.after_all(steps).effects_of(Step::Discover { roots }).len() ==> (
            #[trigger] history.after_all(steps).effects_of(
                Step::Discover { roots },
            )[i] matches EffectView::CreateWorktree { library_root, .. } && library_root != root),
    decreases steps.len(),
{
    if steps.len() > 0 {
        let before = steps.drop_last();
        assert forall|i: int| 0 <= i < before.len() implies !(
        #[trigger] before[i] matches Step::Settings { show_all } && !show_all) by {
            assert(before[i] == steps[i]);
        }
        law_dismissed_library_is_not_enumerated(history, before, root, roots);
        assert(steps.last() == steps[steps.len() - 1]);
        law_dismissal_lasts(history.after_all(before), steps.last(), root);
    }
    let now = history.after_all(steps).store;
    law_enumeration_surfaces_new_dependencies(now, roots);
    let effects = now.discover_all_effects(roots);
    assert forall|i: int| 0 <= i < effects.len() implies (
    #[trigger] effects[i] matches EffectView::CreateWorktree { library_root, .. } && library_root
        != root) by {
        assert(effects.contains(effects[i]));
    }
}

} // verus!
