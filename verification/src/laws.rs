//! What holds of the store over several calls.

use vstd::prelude::*;

use crate::context::{App, EffectView, LibraryOrigin, PathStyle};
use crate::enumeration::RunView;
use crate::library_entry::{is_library_entry, library_lookup, no_entry_before};
use crate::library_root::{
    ancestor, answered, has_manifest, is_library_root, lacks_manifests, manifest_names, manifest_path,
    no_root_below, searched_dir, LIBRARY_ROOT_MAX_DEPTH,
};
use crate::model::{
    enumerate_effects, first_backed_by, libraries_changed, library_of, LibraryView, PendingView,
    StoreView, ENUMERATION_DEBOUNCE_MS,
};
use crate::path::{
    lemma_path_lt_irreflexive, lemma_path_lt_transitive, lies_under, parent_of, path_lt, ComponentPath,
    PathView,
};
use crate::path_map::{in_path_order, lemma_path_order_exists, lists_in_order};
use crate::settings::ExternalLibrariesRemoval;

verus! {

// Locating packages.

/// `dir` directly contains a manifest.
pub open spec fn is_package(files: spec_fn(PathView) -> bool, dir: PathView) -> bool {
    exists|m: int| 0 <= m < manifest_names().len() && files(#[trigger] manifest_path(dir, m))
}

/// The first package at `dir` or above it, looking at no more than `levels`
/// directories.
pub open spec fn nearest_package(
    files: spec_fn(PathView) -> bool,
    dir: Option<PathView>,
    levels: nat,
) -> Option<PathView>
    decreases levels,
{
    match dir {
        Some(dir) if levels > 0 => if is_package(files, dir) {
            Some(dir)
        } else {
            nearest_package(files, parent_of(dir), (levels - 1) as nat)
        },
        _ => None,
    }
}

/// `is_file` answers as `files` says.
pub open spec fn reports<F: Fn(&ComponentPath) -> bool>(
    is_file: F,
    files: spec_fn(PathView) -> bool,
) -> bool {
    forall|path: ComponentPath, answer: bool| #[trigger]
        call_ensures(is_file, (&path,), answer) ==> answer == files(path@)
}

/// On files that do not change during the search, the root that a search ends
/// in is the nearest package above the file, if there is one within the depth
/// limit, and `None` otherwise.
pub proof fn law_root_is_nearest_package<F: Fn(&ComponentPath) -> bool>(
    is_file: F,
    files: spec_fn(PathView) -> bool,
    path: PathView,
    root: Option<PathView>,
)
    requires
        reports(is_file, files),
        is_library_root(is_file, path, root),
    ensures
        root == nearest_package(files, parent_of(path), LIBRARY_ROOT_MAX_DEPTH as nat),
{
    match root {
        Some(root) => {
            let level = choose|level: nat|
                level < LIBRARY_ROOT_MAX_DEPTH && #[trigger] searched_dir(path, level) == Some(root)
                    && has_manifest(is_file, root) && no_root_below(is_file, path, level as int);
            lemma_nearest_from(is_file, files, path, level, 0);
            let m = choose|m: int|
                0 <= m < manifest_names().len() && answered(
                    is_file,
                    #[trigger] manifest_path(root, m),
                    true,
                ) && lacks_manifests(is_file, root, m);
            assert(files(manifest_path(root, m)));
            assert(is_package(files, root));
        },
        None => {
            lemma_nearest_from(is_file, files, path, LIBRARY_ROOT_MAX_DEPTH as nat, 0);
        },
    }
}

/// Skipping the directories without a manifest from `level` up to `end`.
proof fn lemma_nearest_from<F: Fn(&ComponentPath) -> bool>(
    is_file: F,
    files: spec_fn(PathView) -> bool,
    path: PathView,
    end: nat,
    level: nat,
)
    requires
        reports(is_file, files),
        no_root_below(is_file, path, end as int),
        level <= end <= LIBRARY_ROOT_MAX_DEPTH,
    ensures
        nearest_package(
            files,
            searched_dir(path, level),
            (LIBRARY_ROOT_MAX_DEPTH - level) as nat,
        ) == nearest_package(
            files,
            searched_dir(path, end),
            (LIBRARY_ROOT_MAX_DEPTH - end) as nat,
        ),
    decreases end - level,
{
    if level < end {
        lemma_nearest_from(is_file, files, path, end, level + 1);
        match searched_dir(path, level) {
            Some(dir) => {
                assert(lacks_manifests(is_file, dir, manifest_names().len() as int));
                assert forall|m: int| 0 <= m < manifest_names().len() implies !files(
                    #[trigger] manifest_path(dir, m),
                ) by {
                    assert(answered(is_file, manifest_path(dir, m), false));
                }
                assert(!is_package(files, dir));
                assert(searched_dir(path, level + 1) == parent_of(dir));
            },
            None => {
                assert(searched_dir(path, level + 1) is None);
            },
        }
    }
}

/// The root of a file's package is a directory above the file, at most
/// [`LIBRARY_ROOT_MAX_DEPTH`] levels up.
pub proof fn law_root_is_above_file<F: Fn(&ComponentPath) -> bool>(
    is_file: F,
    path: PathView,
    root: PathView,
)
    requires
        is_library_root(is_file, path, Some(root)),
    ensures
        lies_under(path, root),
        path.len() - root.len() <= LIBRARY_ROOT_MAX_DEPTH,
{
    let level = choose|level: nat|
        level < LIBRARY_ROOT_MAX_DEPTH && #[trigger] searched_dir(path, level) == Some(root)
            && has_manifest(is_file, root) && no_root_below(is_file, path, level as int);
    lemma_ancestor_is_prefix(parent_of(path)->Some_0, level);
}

proof fn lemma_ancestor_is_prefix(dir: PathView, level: nat)
    requires
        ancestor(dir, level) is Some,
    ensures
        ancestor(dir, level)->Some_0.is_prefix_of(dir),
        ancestor(dir, level)->Some_0.len() + level == dir.len(),
    decreases level,
{
    if level > 0 {
        lemma_ancestor_is_prefix(dir, (level - 1) as nat);
    }
}

// Surfacing.

/// A library is asked for once: while it is on its way, and while it is
/// surfaced, surfacing it again changes nothing and asks for nothing.
pub proof fn law_library_is_asked_for_once(
    state: StoreView,
    root: PathView,
    origin: LibraryOrigin,
    buffer: Option<u64>,
)
    ensures
        state.surface(root, origin, buffer).knows(root),
        state.surface(root, origin, buffer).surface(root, origin, buffer) == state.surface(
            root,
            origin,
            buffer,
        ),
        state.surface(root, origin, buffer).surface_effects(root, origin, buffer) == Seq::<
            EffectView,
        >::empty(),
        state.knows(root) ==> state.surface(root, origin, buffer) == state,
        !state.knows(root) ==> state.surface_effects(root, origin, buffer).len() == 1,
{
}

/// Navigating into a surfaced library reuses its worktree: the buffer is
/// tracked, nothing else changes and nothing is asked for.
pub proof fn law_navigation_reuses_worktree(state: StoreView, root: PathView, buffer: u64)
    requires
        state.libraries.contains_key(root),
    ensures
        state.navigate(root, buffer).libraries[root].buffers == state.libraries[root].buffers.insert(
            buffer,
        ),
        state.navigate(root, buffer).libraries[root].worktree == state.libraries[root].worktree,
        state.navigate(root, buffer).libraries.dom() == state.libraries.dom(),
        state.navigate(root, buffer).libraries.remove(root) == state.libraries.remove(root),
        state.navigate(root, buffer).pending == state.pending,
        state.navigate_effects(root, buffer) == Seq::<EffectView>::empty(),
{
    assert(state.navigate(root, buffer).libraries.dom() =~= state.libraries.dom());
    assert(state.navigate(root, buffer).libraries.remove(root) =~= state.libraries.remove(root));
}

/// A file under a library root is expected from the moment the library is
/// surfaced, and stays so once the library's worktree at that root is ready.
pub proof fn law_surfaced_library_is_expected(
    state: StoreView,
    app: App,
    root: PathView,
    path: PathView,
    worktree: u64,
    origin: LibraryOrigin,
    buffer: Option<u64>,
    show_all: bool,
)
    requires
        lies_under(path, root),
        !state.libraries.contains_key(root),
        app.root_of(worktree) == Some(root),
        !state.surface(root, origin, buffer).comes_too_late(root, origin, show_all),
    ensures
        state.surface(root, origin, buffer).expects(path, app),
        state.surface(root, origin, buffer).finish(root, worktree, origin, buffer, show_all).expects(
            path,
            app,
        ),
{
    assert(state.surface(root, origin, buffer).pending.contains_key(root));
    let finished = state.surface(root, origin, buffer).finish(root, worktree, origin, buffer, show_all);
    assert(finished.libraries.contains_key(root));
}

/// When no worktree could be created for a library, the store is as if the
/// library had never been surfaced; in particular its files are expected no
/// longer, unless they also lie under another root.
pub proof fn law_failed_library_is_not_expected(
    state: StoreView,
    app: App,
    root: PathView,
    origin: LibraryOrigin,
    buffer: Option<u64>,
    path: PathView,
)
    requires
        !state.knows(root),
    ensures
        state.surface(root, origin, buffer).abandon(root) == state,
        state.surface(root, origin, buffer).abandon(root).expects(path, app) == state.expects(
            path,
            app,
        ),
{
    assert(state.surface(root, origin, buffer).pending.remove(root) =~= state.pending);
    assert(state.surface(root, origin, buffer).abandon(root) =~= state);
}

// Tracking buffers.

/// A buffer that is opened on a file of a package is tracked when the
/// package's worktree is ready, whether the package was surfaced, on its way
/// or unknown when the buffer was opened, and whoever asked for the worktree.
pub proof fn law_opened_buffer_is_tracked(
    state: StoreView,
    root: PathView,
    buffer: u64,
    worktree: u64,
    origin: LibraryOrigin,
    opened_by: Option<u64>,
    show_all: bool,
)
    ensures
        ({
            let ready = state.navigate(root, buffer).finish(
                root,
                worktree,
                origin,
                opened_by,
                show_all,
            );
            ready.libraries.contains_key(root) && ready.libraries[root].buffers.contains(buffer)
        }),
{
    let opened = state.navigate(root, buffer);
    if opened.pending.contains_key(root) && !state.libraries.contains_key(root) {
        assert(opened.pending[root].waiting.contains(buffer));
        assert(opened.followed(root, opened_by).contains(buffer));
    }
}

/// Navigating into a library that is on its way reuses the worktree that is
/// being created: the buffer joins those that wait for it, nothing else
/// changes and nothing is asked for. When the worktree is ready, it is tracked
/// besides those that would have been tracked without it.
pub proof fn law_buffers_join_a_pending_library(
    state: StoreView,
    root: PathView,
    buffer: u64,
    worktree: u64,
    origin: LibraryOrigin,
    opened_by: Option<u64>,
    show_all: bool,
)
    requires
        state.pending.contains_key(root),
        !state.libraries.contains_key(root),
    ensures
        state.navigate(root, buffer) == (StoreView {
            pending: state.pending.insert(root, state.pending[root].with_waiting(buffer)),
            ..state
        }),
        state.navigate_effects(root, buffer) == Seq::<EffectView>::empty(),
        state.navigate(root, buffer).finish(
            root,
            worktree,
            origin,
            opened_by,
            show_all,
        ).libraries[root].buffers == state.followed(root, opened_by).insert(buffer),
{
    let joined = state.navigate(root, buffer);
    assert(joined.pending[root].waiting.contains(buffer));
    assert(joined.followed(root, opened_by) =~= state.followed(root, opened_by).insert(buffer));
}

/// A completion tracks the buffer that it is reported with, unless that buffer
/// was dropped while the worktree was being created or the worktree comes too
/// late. A library that is surfaced already keeps its buffers and its origin;
/// a new one has no other buffers than those that wait for it.
pub proof fn law_completion_tracks_its_buffer(
    state: StoreView,
    root: PathView,
    worktree: u64,
    origin: LibraryOrigin,
    buffer: u64,
    show_all: bool,
)
    requires
        !state.comes_too_late(root, origin, show_all),
        state.pending.contains_key(root) ==> !state.pending[root].dropped.contains(buffer),
    ensures
        ({
            let ready = state.finish(root, worktree, origin, Some(buffer), show_all);
            let joined = if state.pending.contains_key(root) {
                state.pending[root].waiting
            } else {
                Set::empty()
            };
            &&& ready.libraries.remove(root) == state.libraries.remove(root)
            &&& ready.libraries.contains_key(root)
            &&& ready.libraries[root].worktree == worktree
            &&& ready.libraries[root].buffers == if state.libraries.contains_key(root) {
                state.libraries[root].buffers.union(joined).insert(buffer)
            } else {
                joined.insert(buffer)
            }
            &&& state.libraries.contains_key(root) ==> ready.libraries[root].origin
                == state.libraries[root].origin
            &&& !state.libraries.contains_key(root) && (origin == LibraryOrigin::Navigated
                || show_all) ==> ready.libraries[root].origin == origin
            &&& ready.pending == state.pending.remove(root)
            &&& ready.dismissed == state.dismissed
            &&& state.finish_effects(root, origin, show_all) == libraries_changed()
        }),
{
    let ready = state.finish(root, worktree, origin, Some(buffer), show_all);
    let joined = if state.pending.contains_key(root) {
        state.pending[root].waiting
    } else {
        Set::empty()
    };
    assert(state.followed(root, Some(buffer)) =~= joined.insert(buffer));
    assert(ready.libraries.remove(root) =~= state.libraries.remove(root));
    if state.libraries.contains_key(root) {
        assert(ready.libraries[root].buffers =~= state.libraries[root].buffers.union(joined).insert(
            buffer,
        ));
    }
}

/// A buffer that is dropped while its library is on its way is not tracked
/// when the worktree is ready.
pub proof fn law_buffer_dropped_while_pending_is_not_tracked(
    state: StoreView,
    root: PathView,
    buffer: u64,
    removal: ExternalLibrariesRemoval,
    worktree: u64,
    origin: LibraryOrigin,
    opened_by: Option<u64>,
    show_all: bool,
)
    requires
        state.pending.contains_key(root),
    ensures
        ({
            let ready = state.drop_buffer(buffer, removal).finish(
                root,
                worktree,
                origin,
                opened_by,
                show_all,
            );
            ready.libraries.contains_key(root) ==> !ready.libraries[root].buffers.contains(buffer)
        }),
{
    let dropped = state.drop_buffer(buffer, removal);
    assert(dropped.pending.contains_key(root));
    assert(dropped.pending[root].dropped.contains(buffer));
    assert(!dropped.followed(root, opened_by).contains(buffer));
}

/// A library that an enumeration asked for and that a buffer was opened in
/// meanwhile is surfaced even if eager enumeration is disabled before its
/// worktree is ready: as one that the user navigated into. It does not matter
/// which of the two came first.
pub proof fn law_joined_request_survives_disabling(
    state: StoreView,
    root: PathView,
    buffer: u64,
    worktree: u64,
)
    requires
        state.show_all,
        state.pending.contains_key(root),
        !state.libraries.contains_key(root),
    ensures
        ({
            let library = LibraryView {
                worktree,
                buffers: state.pending[root].waiting.insert(buffer),
                origin: LibraryOrigin::Navigated,
            };
            let joined = state.navigate(root, buffer).settings_changed(false);
            let disabled = state.settings_changed(false).navigate(root, buffer);
            &&& joined == disabled
            &&& joined.finish(root, worktree, LibraryOrigin::Enumerated, None, false).libraries
                == joined.libraries.insert(root, library)
            &&& joined.finish_effects(root, LibraryOrigin::Enumerated, false)
                == libraries_changed()
        }),
{
    let joined = state.navigate(root, buffer).settings_changed(false);
    let disabled = state.settings_changed(false).navigate(root, buffer);
    assert(joined =~= disabled);
    assert(state.pending[root].waiting.insert(buffer).contains(buffer));
}

/// A library that only an enumeration asked for is not surfaced if eager
/// enumeration is disabled before its worktree is ready, whatever buffer its
/// completion is reported with: the store is as if it had never been asked for.
pub proof fn law_late_enumeration_is_dropped(
    state: StoreView,
    root: PathView,
    worktree: u64,
    opened_by: Option<u64>,
)
    requires
        state.show_all,
        !state.knows(root),
    ensures
        ({
            let disabled = state.surface(
                root,
                LibraryOrigin::Enumerated,
                opened_by,
            ).settings_changed(false);
            &&& disabled.finish(root, worktree, LibraryOrigin::Enumerated, opened_by, false)
                == state.settings_changed(false)
            &&& disabled.finish_effects(root, LibraryOrigin::Enumerated, false) == Seq::<
                EffectView,
            >::empty()
        }),
{
    let disabled = state.surface(root, LibraryOrigin::Enumerated, opened_by).settings_changed(false);
    let ready = disabled.finish(root, worktree, LibraryOrigin::Enumerated, opened_by, false);
    assert(ready.pending =~= state.pending);
    assert(ready.libraries =~= state.settings_changed(false).libraries);
    assert(ready =~= state.settings_changed(false));
}

/// While eager enumeration is disabled, the completion of an enumerated
/// library that no buffer waits for surfaces nothing, tracks nothing and
/// announces nothing: the root is no longer pending, and that is all.
pub proof fn law_unawaited_enumerated_completion_is_ignored(
    state: StoreView,
    root: PathView,
    worktree: u64,
    opened_by: Option<u64>,
)
    requires
        !state.is_awaited(root),
    ensures
        state.finish(root, worktree, LibraryOrigin::Enumerated, opened_by, false) == (StoreView {
            pending: state.pending.remove(root),
            ..state
        }),
        state.finish_effects(root, LibraryOrigin::Enumerated, false) == Seq::<EffectView>::empty(),
{
}

// Translating entries.

/// An entry that a path translates to is the one that the worktree of a
/// surfaced library, which holds the path, has for it.
pub proof fn law_translation_lies_in_a_library<
    R: Fn(&ComponentPath, PathStyle) -> Option<String>,
    E: Fn(u64, &String) -> Option<u64>,
>(
    state: StoreView,
    app: App,
    path: PathView,
    style: PathStyle,
    to_rel_path: R,
    entry_for_path: E,
    found: u64,
)
    requires
        state.libraries.dom().finite(),
        is_library_entry(
            state.worktrees(),
            app,
            path,
            style,
            to_rel_path,
            entry_for_path,
            Some(found),
        ),
    ensures
        exists|root: PathView| #[trigger]
            state.libraries.contains_key(root) && (app.root_of(state.libraries[root].worktree) matches Some(
                worktree_root,
            ) && worktree_root.is_prefix_of(path)) && library_lookup(
                app,
                state.libraries[root].worktree,
                path,
                style,
                to_rel_path,
                entry_for_path,
                Some(found),
            ),
{
    law_panel_renders_libraries_in_path_order(state);
    let worktrees = state.worktrees();
    let i = choose|i: int|
        0 <= i < worktrees.len() && library_lookup(
            app,
            #[trigger] worktrees[i],
            path,
            style,
            to_rel_path,
            entry_for_path,
            Some(found),
        ) && no_entry_before(worktrees, app, path, style, to_rel_path, entry_for_path, i);
    assert(worktrees.contains(worktrees[i]));
    let root = choose|root: PathView| #[trigger]
        state.libraries.contains_key(root) && state.libraries[root].worktree == worktrees[i];
    assert(state.libraries.contains_key(root));
}

// The panel.

/// The panel renders exactly the worktrees that back surfaced libraries, one
/// for each library, and a root that comes earlier in path order is rendered
/// earlier.
pub proof fn law_panel_renders_libraries_in_path_order(state: StoreView)
    requires
        state.libraries.dom().finite(),
    ensures
        forall|worktree: u64| #[trigger]
            state.worktrees().contains(worktree) <==> exists|root: PathView| #[trigger]
                state.libraries.contains_key(root) && state.libraries[root].worktree == worktree,
        forall|a: PathView, b: PathView|
            #![trigger state.libraries.contains_key(a), state.libraries.contains_key(b)]
            state.libraries.contains_key(a) && state.libraries.contains_key(b) && path_lt(a, b)
                ==> exists|i: int, j: int|
                0 <= i < j < state.worktrees().len() && #[trigger] state.worktrees()[i]
                    == state.libraries[a].worktree && #[trigger] state.worktrees()[j]
                    == state.libraries[b].worktree,
{
    let roots = in_path_order(state.libraries.dom());
    lemma_path_order_exists(state.libraries.dom());
    assert forall|worktree: u64| #[trigger]
        state.worktrees().contains(worktree) <==> exists|root: PathView| #[trigger]
            state.libraries.contains_key(root) && state.libraries[root].worktree == worktree by {
        if state.worktrees().contains(worktree) {
            let i = state.worktrees().index_of(worktree);
            assert(roots.contains(roots[i]));
            assert(state.libraries.contains_key(roots[i]));
        }
        if exists|root: PathView| #[trigger]
            state.libraries.contains_key(root) && state.libraries[root].worktree == worktree {
            let root = choose|root: PathView| #[trigger]
                state.libraries.contains_key(root) && state.libraries[root].worktree == worktree;
            assert(roots.contains(root));
            let i = roots.index_of(root);
            assert(state.worktrees()[i] == worktree);
        }
    }
    assert forall|a: PathView, b: PathView|
        #![trigger state.libraries.contains_key(a), state.libraries.contains_key(b)]
        state.libraries.contains_key(a) && state.libraries.contains_key(b) && path_lt(a, b) implies exists|
        i: int,
        j: int,
    |
        0 <= i < j < state.worktrees().len() && #[trigger] state.worktrees()[i]
            == state.libraries[a].worktree && #[trigger] state.worktrees()[j]
            == state.libraries[b].worktree by {
        assert(roots.contains(a) && roots.contains(b));
        let i = roots.index_of(a);
        let j = roots.index_of(b);
        if j < i {
            assert(path_lt(roots[j], roots[i]));
            lemma_path_lt_transitive(a, b, a);
        }
        lemma_path_lt_irreflexive(a);
        assert(state.worktrees()[i] == state.libraries[a].worktree);
        assert(state.worktrees()[j] == state.libraries[b].worktree);
    }
}

/// The user can remove every library: if a worktree backs one, removing by
/// that worktree takes a library that it backs out of the panel, whatever
/// buffers reference it, and leaves the others as they are. If it backs none,
/// nothing happens.
pub proof fn law_removal_takes_the_library_out(state: StoreView, worktree: u64)
    requires
        state.libraries.dom().finite(),
    ensures
        match library_of(state.libraries, worktree) {
            Some(root) => {
                &&& state.libraries.contains_key(root)
                &&& state.libraries[root].worktree == worktree
                &&& state.remove(worktree).libraries == state.libraries.remove(root)
                &&& state.remove_effects(worktree) == libraries_changed()
            },
            None => {
                &&& forall|root: PathView| #[trigger]
                    state.libraries.contains_key(root) ==> state.libraries[root].worktree != worktree
                &&& state.remove(worktree) == state
                &&& state.remove_effects(worktree) == Seq::<EffectView>::empty()
            },
        },
{
    let roots = in_path_order(state.libraries.dom());
    lemma_path_order_exists(state.libraries.dom());
    if exists|root: PathView| #[trigger]
        state.libraries.contains_key(root) && state.libraries[root].worktree == worktree {
        let backed = choose|root: PathView| #[trigger]
            state.libraries.contains_key(root) && state.libraries[root].worktree == worktree;
        assert(roots.contains(backed));
        lemma_first_backed(state.libraries, worktree, roots, roots.index_of(backed));
    }
}

/// Among the libraries that a worktree backs there is a first.
proof fn lemma_first_backed(
    libraries: Map<PathView, LibraryView>,
    worktree: u64,
    roots: Seq<PathView>,
    i: int,
)
    requires
        lists_in_order(roots, libraries.dom()),
        0 <= i < roots.len(),
        libraries[roots[i]].worktree == worktree,
    ensures
        exists|root: PathView| first_backed_by(libraries, worktree, root),
    decreases i,
{
    if exists|j: int| 0 <= j < i && libraries[#[trigger] roots[j]].worktree == worktree {
        let j = choose|j: int| 0 <= j < i && libraries[#[trigger] roots[j]].worktree == worktree;
        lemma_first_backed(libraries, worktree, roots, j);
    } else {
        let root = roots[i];
        assert(roots.contains(root));
        assert forall|other: PathView| #[trigger]
            libraries.contains_key(other) && libraries[other].worktree == worktree implies other == root
            || path_lt(root, other) by {
            assert(roots.contains(other));
            let j = roots.index_of(other);
            assert(roots[j] == other);
        }
        assert(first_backed_by(libraries, worktree, root));
    }
}

// Automatic removal.

/// A library that the user navigated into leaves the panel with its last
/// buffer if libraries are removed automatically: surfacing a package through
/// a buffer and dropping that buffer gives back the libraries from before.
pub proof fn law_navigated_library_leaves_with_its_buffer(
    state: StoreView,
    root: PathView,
    worktree: u64,
    buffer: u64,
    show_all: bool,
)
    requires
        !state.knows(root),
        forall|other: PathView| #[trigger]
            state.libraries.contains_key(other) ==> !state.libraries[other].buffers.contains(buffer),
    ensures
        ({
            let shown = state.navigate(root, buffer).finish(
                root,
                worktree,
                LibraryOrigin::Navigated,
                Some(buffer),
                show_all,
            );
            &&& shown.libraries.contains_key(root)
            &&& shown.drop_buffer(buffer, ExternalLibrariesRemoval::AutoRemove).libraries
                == state.libraries
            &&& shown.drop_buffer_effects(buffer, ExternalLibrariesRemoval::AutoRemove)
                == libraries_changed()
            &&& shown.drop_buffer(buffer, ExternalLibrariesRemoval::Manual).libraries.contains_key(root)
        }),
{
    let shown = state.navigate(root, buffer).finish(
        root,
        worktree,
        LibraryOrigin::Navigated,
        Some(buffer),
        show_all,
    );
    let library = shown.libraries[root];
    assert(library.buffers.remove(buffer) =~= Set::<u64>::empty());
    assert(library.leaves_with(buffer, ExternalLibrariesRemoval::AutoRemove));
    assert(shown.libraries.contains_key(root));
    assert(shown.loses_library(buffer, ExternalLibrariesRemoval::AutoRemove));
    let left = shown.drop_buffer(buffer, ExternalLibrariesRemoval::AutoRemove).libraries;
    assert forall|other: PathView| #[trigger] left.dom().contains(other) implies left[other]
        == state.libraries[other] by {
        assert(state.libraries.contains_key(other));
        assert(state.libraries[other].buffers.remove(buffer) =~= state.libraries[other].buffers);
    }
    assert(left =~= state.libraries);
}

/// A library that another buffer still references stays when one of its
/// buffers is dropped, and its other buffers stay tracked.
pub proof fn law_referenced_library_stays(
    state: StoreView,
    root: PathView,
    dropped: u64,
    kept: u64,
    removal: ExternalLibrariesRemoval,
)
    requires
        state.libraries.contains_key(root),
        state.libraries[root].buffers.contains(kept),
        kept != dropped,
    ensures
        state.drop_buffer(dropped, removal).libraries.contains_key(root),
        state.drop_buffer(dropped, removal).libraries[root].buffers.contains(kept),
{
    assert(state.libraries[root].buffers.remove(dropped).contains(kept));
}

/// No buffer's drop removes an enumerated library, and nothing but dropping
/// its last buffer under automatic removal removes one that the user navigated
/// into.
pub proof fn law_drop_removes_only_navigated(
    state: StoreView,
    root: PathView,
    buffer: u64,
    removal: ExternalLibrariesRemoval,
)
    requires
        state.libraries.contains_key(root),
    ensures
        state.libraries[root].origin == LibraryOrigin::Enumerated || removal
            == ExternalLibrariesRemoval::Manual || !state.libraries[root].buffers.contains(buffer)
            ==> state.drop_buffer(buffer, removal).libraries.contains_key(root),
{
}

/// Dropping a buffer that no library tracks, and that waits for none, asks for
/// nothing and changes nothing, except that the libraries that are on their way
/// remember it as dropped.
pub proof fn law_untracked_drop_is_idle(
    state: StoreView,
    buffer: u64,
    removal: ExternalLibrariesRemoval,
)
    requires
        forall|root: PathView| #[trigger]
            state.libraries.contains_key(root) ==> !state.libraries[root].buffers.contains(buffer),
        forall|root: PathView| #[trigger]
            state.pending.contains_key(root) ==> !state.pending[root].waiting.contains(buffer),
    ensures
        state.drop_buffer(buffer, removal) == (StoreView {
            pending: state.pending.map_values(
                |library: PendingView|
                    PendingView { dropped: library.dropped.insert(buffer), ..library },
            ),
            ..state
        }),
        state.drop_buffer_effects(buffer, removal) == Seq::<EffectView>::empty(),
{
    let after = state.drop_buffer(buffer, removal).libraries;
    assert forall|root: PathView| #[trigger] after.dom().contains(root) implies after[root]
        == state.libraries[root] by {
        assert(state.libraries[root].buffers.remove(buffer) =~= state.libraries[root].buffers);
    }
    assert(after =~= state.libraries);
    let pending = state.drop_buffer(buffer, removal).pending;
    let expected = state.pending.map_values(
        |library: PendingView| PendingView { dropped: library.dropped.insert(buffer), ..library },
    );
    assert forall|root: PathView| #[trigger] pending.dom().contains(root) implies pending[root]
        == expected[root] by {
        assert(state.pending.contains_key(root));
        assert(state.pending[root].waiting.remove(buffer) =~= state.pending[root].waiting);
    }
    assert(pending =~= expected);
}

/// Once a buffer is dropped, no library tracks it and it waits for none.
pub proof fn law_dropped_buffer_is_forgotten(
    state: StoreView,
    buffer: u64,
    removal: ExternalLibrariesRemoval,
)
    ensures
        forall|root: PathView| #[trigger]
            state.drop_buffer(buffer, removal).libraries.contains_key(root) ==> !state.drop_buffer(
                buffer,
                removal,
            ).libraries[root].buffers.contains(buffer),
        forall|root: PathView| #[trigger]
            state.drop_buffer(buffer, removal).pending.contains_key(root) ==> !state.drop_buffer(
                buffer,
                removal,
            ).pending[root].waiting.contains(buffer),
        state.drop_buffer(buffer, removal).drop_buffer(buffer, removal) == state.drop_buffer(
            buffer,
            removal,
        ),
{
    let once = state.drop_buffer(buffer, removal);
    let twice = once.drop_buffer(buffer, removal);
    law_untracked_drop_is_idle(once, buffer, removal);
    assert forall|root: PathView| #[trigger] twice.pending.dom().contains(root) implies twice.pending[root]
        == once.pending[root] by {
        assert(once.pending.contains_key(root));
        assert(once.pending[root].dropped.insert(buffer) =~= once.pending[root].dropped);
    }
    assert(twice.pending =~= once.pending);
}

// Eager enumeration.

/// The roots among `roots` that an enumeration surfaces.
pub open spec fn newly_surfaced(state: StoreView, roots: Seq<PathView>) -> Set<PathView> {
    Set::new(|root: PathView| roots.contains(root) && !state.skips(root))
}

/// The pending roots once an enumeration has surfaced what is new among
/// `roots`. No buffer waits for the new ones yet.
pub open spec fn pending_after(
    state: StoreView,
    roots: Seq<PathView>,
) -> Map<PathView, PendingView> {
    Map::new(
        |root: PathView|
            state.pending.contains_key(root) || newly_surfaced(state, roots).contains(root),
        |root: PathView|
            if state.pending.contains_key(root) {
                state.pending[root]
            } else {
                PendingView::awaited_by(Set::empty())
            },
    )
}

/// The request for the worktree of an enumerated library.
pub open spec fn enumerated_request(root: PathView) -> EffectView {
    EffectView::CreateWorktree {
        library_root: root,
        visible: false,
        origin: LibraryOrigin::Enumerated,
        buffer_id: None,
    }
}

/// An enumeration surfaces every listed dependency that is neither dismissed
/// nor known, and touches nothing else. Every one of them is asked for once.
pub proof fn law_enumeration_surfaces_new_dependencies(state: StoreView, roots: Seq<PathView>)
    ensures
        state.discover_all(roots) == (StoreView {
            pending: pending_after(state, roots),
            ..state
        }),
        state.discover_all_effects(roots).no_duplicates(),
        forall|effect: EffectView| #[trigger]
            state.discover_all_effects(roots).contains(effect) <==> exists|root: PathView|
                newly_surfaced(state, roots).contains(root) && effect == #[trigger] enumerated_request(
                    root,
                ),
    decreases roots.len(),
{
    let after = state.discover_all(roots);
    let expected = pending_after(state, roots);
    let effects = state.discover_all_effects(roots);
    if roots.len() == 0 {
        assert(after.pending =~= expected);
        assert(after =~= (StoreView { pending: expected, ..state }));
        assert forall|effect: EffectView| #[trigger] effects.contains(effect) <==> exists|root: PathView|
            newly_surfaced(state, roots).contains(root) && effect == #[trigger] enumerated_request(
                root,
            ) by {}
    } else {
        let before = roots.drop_last();
        let last = roots.last();
        law_enumeration_surfaces_new_dependencies(state, before);
        let middle = state.discover_all(before);
        let asked = state.discover_all_effects(before);
        assert forall|root: PathView| roots.contains(root) == (before.contains(root) || root == last) by {
            if before.contains(root) {
                let i = before.index_of(root);
                assert(roots[i] == root);
            }
            if root == last {
                assert(roots[roots.len() - 1] == root);
            }
            if roots.contains(root) && root != last {
                let i = roots.index_of(root);
                assert(before[i] == root);
            }
        }
        assert(after.pending =~= expected);
        assert(after =~= (StoreView { pending: expected, ..state }));
        if middle.skips(last) {
            assert(effects =~= asked);
            assert(newly_surfaced(state, roots) =~= newly_surfaced(state, before));
        } else {
            let request = enumerated_request(last);
            assert(effects =~= asked.push(request));
            assert(!newly_surfaced(state, before).contains(last));
            assert(!asked.contains(request));
            assert forall|i: int, j: int| 0 <= i < j < effects.len() implies effects[i] != effects[j] by {
                assert(asked.contains(asked[i]));
                if j < asked.len() {
                    assert(asked[i] != asked[j]);
                }
            }
            assert forall|effect: EffectView| #[trigger]
                effects.contains(effect) <==> exists|root: PathView|
                    newly_surfaced(state, roots).contains(root) && effect
                        == #[trigger] enumerated_request(root) by {
                if effects.contains(effect) {
                    let i = effects.index_of(effect);
                    if i < asked.len() {
                        assert(asked[i] == effect);
                        assert(asked.contains(effect));
                        let root = choose|root: PathView|
                            newly_surfaced(state, before).contains(root) && effect
                                == #[trigger] enumerated_request(root);
                        assert(newly_surfaced(state, roots).contains(root));
                    } else {
                        assert(newly_surfaced(state, roots).contains(last) && effect
                            == enumerated_request(last));
                    }
                }
                if exists|root: PathView|
                    newly_surfaced(state, roots).contains(root) && effect
                        == #[trigger] enumerated_request(root) {
                    let root = choose|root: PathView|
                        newly_surfaced(state, roots).contains(root) && effect
                            == #[trigger] enumerated_request(root);
                    if root == last {
                        assert(effects[asked.len() as int] == effect);
                    } else {
                        assert(newly_surfaced(state, before).contains(root));
                        assert(asked.contains(effect));
                        let i = asked.index_of(effect);
                        assert(effects[i] == effect);
                    }
                }
            }
        }
    }
}

/// While eager enumeration is enabled, every listed dependency that is neither
/// dismissed nor known ends up in the panel, as an enumerated library, once its
/// worktree is ready.
pub proof fn law_listed_dependency_is_shown(
    state: StoreView,
    roots: Seq<PathView>,
    root: PathView,
    worktree: u64,
)
    requires
        roots.contains(root),
        !state.skips(root),
    ensures
        state.discover_all_effects(roots).contains(enumerated_request(root)),
        state.discover_all(roots).finish(
            root,
            worktree,
            LibraryOrigin::Enumerated,
            None,
            true,
        ).libraries == state.libraries.insert(
            root,
            LibraryView { worktree, buffers: Set::empty(), origin: LibraryOrigin::Enumerated },
        ),
{
    law_enumeration_surfaces_new_dependencies(state, roots);
    assert(newly_surfaced(state, roots).contains(root));
}

/// The order in which dependencies are listed, and how often, makes no
/// difference to which libraries are surfaced.
pub proof fn law_enumeration_ignores_order(state: StoreView, a: Seq<PathView>, b: Seq<PathView>)
    requires
        forall|root: PathView| #[trigger] a.contains(root) == b.contains(root),
    ensures
        state.discover_all(a) == state.discover_all(b),
{
    law_enumeration_surfaces_new_dependencies(state, a);
    law_enumeration_surfaces_new_dependencies(state, b);
    assert(newly_surfaced(state, a) =~= newly_surfaced(state, b));
    assert(pending_after(state, a) =~= pending_after(state, b));
}

/// Enumerating the same dependencies again changes nothing and asks for
/// nothing.
pub proof fn law_enumeration_is_idempotent(state: StoreView, roots: Seq<PathView>)
    ensures
        state.discover_all(roots).discover_all(roots) == state.discover_all(roots),
        state.discover_all(roots).discover_all_effects(roots) == Seq::<EffectView>::empty(),
{
    let once = state.discover_all(roots);
    law_enumeration_surfaces_new_dependencies(state, roots);
    law_enumeration_surfaces_new_dependencies(once, roots);
    assert(newly_surfaced(once, roots) =~= Set::<PathView>::empty());
    assert(pending_after(once, roots) =~= once.pending);
    let effects = once.discover_all_effects(roots);
    if effects.len() > 0 {
        assert(effects.contains(effects[0]));
    }
    assert(effects =~= Seq::<EffectView>::empty());
}

/// An enumerated library that the user removed stays away: a later
/// enumeration does not surface it.
pub proof fn law_dismissed_library_stays_away(
    state: StoreView,
    worktree: u64,
    root: PathView,
    roots: Seq<PathView>,
)
    requires
        library_of(state.libraries, worktree) == Some(root),
        state.libraries[root].origin == LibraryOrigin::Enumerated,
        !state.pending.contains_key(root),
    ensures
        !state.remove(worktree).libraries.contains_key(root),
        !state.remove(worktree).discover_all(roots).knows(root),
        !state.remove(worktree).discover_all_effects(roots).contains(enumerated_request(root)),
{
    let removed = state.remove(worktree);
    law_enumeration_surfaces_new_dependencies(removed, roots);
    assert(!newly_surfaced(removed, roots).contains(root));
    if removed.discover_all_effects(roots).contains(enumerated_request(root)) {
        let other = choose|other: PathView|
            newly_surfaced(removed, roots).contains(other) && enumerated_request(root)
                == #[trigger] enumerated_request(other);
        assert(other == root);
    }
}

/// A library that the user navigated into and removed is not remembered: the
/// next navigation or enumeration surfaces it again.
pub proof fn law_removed_navigated_library_may_return(
    state: StoreView,
    worktree: u64,
    root: PathView,
    buffer: u64,
)
    requires
        library_of(state.libraries, worktree) == Some(root),
        state.libraries[root].origin == LibraryOrigin::Navigated,
        !state.pending.contains_key(root),
        !state.dismissed.contains(root),
    ensures
        state.remove(worktree).dismissed == state.dismissed,
        state.remove(worktree).navigate(root, buffer).pending.contains_key(root),
        state.remove(worktree).navigate_effects(root, buffer).len() == 1,
        state.remove(worktree).discover(root).pending.contains_key(root),
{
}

/// Disabling eager enumeration removes the enumerated libraries and no others,
/// and forgets what was dismissed, so that enabling it again starts fresh.
pub proof fn law_disabling_starts_fresh(state: StoreView, root: PathView)
    requires
        state.show_all,
    ensures
        ({
            let off = state.settings_changed(false);
            &&& !off.has_enumerated()
            &&& off.libraries.contains_key(root) <==> state.libraries.contains_key(root)
                && state.libraries[root].origin == LibraryOrigin::Navigated
            &&& off.libraries.contains_key(root) ==> off.libraries[root] == state.libraries[root]
            &&& off.dismissed == Set::<PathView>::empty()
            &&& off.pending == state.pending
            &&& !off.knows(root) ==> off.settings_changed(true).discover(root).pending.contains_key(root)
        }),
{
}

/// Settings that change without touching eager enumeration do nothing.
pub proof fn law_unrelated_settings_are_ignored(state: StoreView)
    ensures
        state.settings_changed(state.show_all) == state,
        state.settings_changed_effects(state.show_all) == Seq::<EffectView>::empty(),
{
}

/// The store after `count` more enumerations have been scheduled.
pub open spec fn scheduled(state: StoreView, count: nat) -> StoreView
    decreases count,
{
    if count == 0 {
        state
    } else {
        scheduled(state, (count - 1) as nat).schedule()
    }
}

/// What scheduling `count` enumerations asks for.
pub open spec fn scheduled_effects(state: StoreView, count: nat) -> Seq<EffectView>
    decreases count,
{
    if count == 0 {
        Seq::empty()
    } else {
        scheduled_effects(state, (count - 1) as nat) + scheduled(
            state,
            (count - 1) as nat,
        ).schedule_effects()
    }
}

/// The tasks of the timers that `count` scheduled enumerations start.
pub open spec fn burst(state: StoreView, count: nat) -> Seq<u64> {
    Seq::new(count, |i: int| scheduled(state, i as nat).next_task())
}

/// What the timers that run under `tasks` ask for when they elapse one after
/// the other. `apps` is what each of them finds.
pub open spec fn elapsed_effects(state: StoreView, tasks: Seq<u64>, apps: Seq<App>) -> Seq<EffectView>
    decreases tasks.len(),
{
    if tasks.len() == 0 {
        Seq::empty()
    } else {
        elapsed_effects(state, tasks.drop_last(), apps) + state.timer_effects(
            tasks.last(),
            apps[tasks.len() - 1],
        )
    }
}

/// Scheduling is debounced: `count` enumerations that are scheduled in quick
/// succession start a timer each, and once all these timers have elapsed the
/// libraries have been enumerated exactly once, by the last of them, which runs
/// the full delay from the last call. A timer that was running before leads to
/// nothing any more, and so does one of these that elapses after another has
/// been started. Until then nothing but the current timer changes. (Tasks are
/// told apart up to the size of their type.)
pub proof fn law_scheduling_is_debounced(state: StoreView, count: nat, apps: Seq<App>)
    requires
        0 < count <= u64::MAX,
        apps.len() == count,
    ensures
        scheduled(state, count) == (StoreView {
            enumeration_task: Some(burst(state, count).last()),
            ..state
        }),
        scheduled_effects(state, count) == burst(state, count).map_values(
            |task: u64|
                EffectView::StartEnumerationTimer { task, delay_ms: ENUMERATION_DEBOUNCE_MS },
        ),
        elapsed_effects(scheduled(state, count), burst(state, count), apps) == enumerate_effects(
            apps.last(),
        ),
        forall|i: int, later: nat, app: App|
            #![trigger scheduled(state, later).timer_effects(burst(state, count)[i], app)]
            0 <= i < later <= count ==> scheduled(state, later).timer_effects(
                burst(state, count)[i],
                app,
            ) == if later == i + 1 {
                enumerate_effects(app)
            } else {
                Seq::empty()
            },
        forall|task: u64, app: App|
            state.enumeration_task == Some(task) ==> #[trigger] scheduled(state, count).timer_effects(
                task,
                app,
            ) == Seq::<EffectView>::empty(),
{
    let tasks = burst(state, count);
    lemma_scheduled(state, count);
    assert forall|i: int, later: nat, app: App|
        #![trigger scheduled(state, later).timer_effects(tasks[i], app)]
        0 <= i < later <= count implies scheduled(state, later).timer_effects(tasks[i], app)
        == if later == i + 1 {
        enumerate_effects(app)
    } else {
        Seq::empty()
    } by {
        let first = (i + 1) as nat;
        assert(scheduled(state, first).enumeration_task == Some(tasks[i]));
        lemma_scheduled_from(state, first, (later - first) as nat);
        lemma_scheduled_task(scheduled(state, first), (later - first) as nat);
    }
    assert(scheduled(state, count).enumeration_task == Some(tasks.last()));
    assert forall|i: int| 0 <= i < tasks.len() - 1 implies #[trigger] tasks[i] != tasks.last() by {
        let first = (i + 1) as nat;
        assert(scheduled(state, first).enumeration_task == Some(tasks[i]));
        lemma_scheduled_from(state, first, (count - first) as nat);
        lemma_scheduled_task(scheduled(state, first), (count - first) as nat);
    }
    lemma_only_last_elapses(scheduled(state, count), tasks, apps);
    if state.enumeration_task is Some {
        lemma_scheduled_task(state, count);
    }
}

/// If only the last of several timers is the current one, they lead to one
/// enumeration.
proof fn lemma_only_last_elapses(state: StoreView, tasks: Seq<u64>, apps: Seq<App>)
    requires
        tasks.len() > 0,
        apps.len() == tasks.len(),
        state.enumeration_task == Some(tasks.last()),
        forall|i: int| 0 <= i < tasks.len() - 1 ==> #[trigger] tasks[i] != tasks.last(),
    ensures
        elapsed_effects(state, tasks, apps) == enumerate_effects(apps.last()),
{
    lemma_none_elapses(state, tasks.drop_last(), apps);
    assert(Seq::<EffectView>::empty() + enumerate_effects(apps.last()) =~= enumerate_effects(
        apps.last(),
    ));
}

/// Timers of which none is the current one lead to nothing.
proof fn lemma_none_elapses(state: StoreView, tasks: Seq<u64>, apps: Seq<App>)
    requires
        forall|i: int| 0 <= i < tasks.len() ==> state.enumeration_task != Some(#[trigger] tasks[i]),
    ensures
        elapsed_effects(state, tasks, apps) == Seq::<EffectView>::empty(),
    decreases tasks.len(),
{
    if tasks.len() > 0 {
        assert forall|i: int| 0 <= i < tasks.drop_last().len() implies state.enumeration_task != Some(
            #[trigger] tasks.drop_last()[i],
        ) by {
            assert(tasks.drop_last()[i] == tasks[i]);
        }
        lemma_none_elapses(state, tasks.drop_last(), apps);
        assert(state.enumeration_task != Some(tasks[tasks.len() - 1]));
        assert(Seq::<EffectView>::empty() + Seq::<EffectView>::empty() =~= Seq::<
            EffectView,
        >::empty());
    }
}

/// Scheduling enumerations starts the timers of a burst and changes nothing
/// but the current timer.
proof fn lemma_scheduled(state: StoreView, count: nat)
    ensures
        count > 0 ==> scheduled(state, count) == (StoreView {
            enumeration_task: Some(burst(state, count).last()),
            ..state
        }),
        scheduled_effects(state, count) == burst(state, count).map_values(
            |task: u64|
                EffectView::StartEnumerationTimer { task, delay_ms: ENUMERATION_DEBOUNCE_MS },
        ),
    decreases count,
{
    let started = |task: u64|
        EffectView::StartEnumerationTimer { task, delay_ms: ENUMERATION_DEBOUNCE_MS };
    if count == 0 {
        assert(scheduled_effects(state, count) =~= burst(state, count).map_values(started));
    } else {
        let fewer = (count - 1) as nat;
        lemma_scheduled(state, fewer);
        assert(burst(state, count) =~= burst(state, fewer).push(scheduled(state, fewer).next_task()));
        assert(scheduled_effects(state, count) =~= burst(state, count).map_values(started));
    }
}

/// Scheduling goes on from where it stopped.
proof fn lemma_scheduled_from(state: StoreView, first: nat, more: nat)
    ensures
        scheduled(scheduled(state, first), more) == scheduled(state, first + more),
    decreases more,
{
    if more > 0 {
        lemma_scheduled_from(state, first, (more - 1) as nat);
        assert((first + more - 1) as nat == first + (more - 1) as nat);
    }
}

/// Tasks count up, and start again at zero after the largest.
proof fn lemma_scheduled_task(state: StoreView, count: nat)
    requires
        state.enumeration_task is Some,
        count <= u64::MAX,
    ensures
        ({
            let task = state.enumeration_task->Some_0;
            scheduled(state, count).enumeration_task == Some(
                if task + count > u64::MAX {
                    (task + count - u64::MAX - 1) as u64
                } else {
                    (task + count) as u64
                },
            )
        }),
    decreases count,
{
    if count > 0 {
        lemma_scheduled_task(state, (count - 1) as nat);
    }
}

/// All listings of a run, one after the other.
pub open spec fn record_all(run: RunView, listings: Seq<Seq<PathView>>) -> RunView
    decreases listings.len(),
{
    if listings.len() == 0 {
        run
    } else {
        record_all(run, listings.drop_last()).record(listings.last())
    }
}

/// A run asks every provider about every root, all providers about one root
/// before the next root's turn, and ends when all have answered. It gathers
/// what the listings name in the order of the listings.
pub proof fn law_run_asks_each_provider_about_each_root(
    roots: Seq<PathView>,
    providers: nat,
    listings: Seq<Seq<PathView>>,
)
    requires
        providers > 0,
        listings.len() <= roots.len() * providers,
    ensures
        ({
            let run = record_all(RunView::start(roots, providers), listings);
            &&& run.dependencies == listings.flatten()
            &&& listings.len() == roots.len() * providers ==> run.next() is None
            &&& listings.len() < roots.len() * providers ==> (run.next() matches Some((root, provider))
                && 0 <= root < roots.len() && 0 <= provider < providers && root * providers + provider
                == listings.len())
        }),
{
    lemma_recorded(RunView::start(roots, providers), listings);
    let count = listings.len() as int;
    let each = providers as int;
    assert(Seq::<PathView>::empty() + listings.flatten() =~= listings.flatten());
    if count < roots.len() * providers {
        vstd::arithmetic::div_mod::lemma_fundamental_div_mod(count, each);
        vstd::arithmetic::div_mod::lemma_mod_bound(count, each);
        vstd::arithmetic::div_mod::lemma_div_pos_is_pos(count, each);
        let root = count / each;
        assert(root < roots.len()) by (nonlinear_arith)
            requires
                root * each <= count,
                count < roots.len() * each,
                each > 0,
        ;
        assert(root * each == each * root) by (nonlinear_arith);
    }
}

proof fn lemma_recorded(run: RunView, listings: Seq<Seq<PathView>>)
    ensures
        record_all(run, listings).roots == run.roots,
        record_all(run, listings).providers == run.providers,
        record_all(run, listings).recorded == run.recorded + listings.len(),
        record_all(run, listings).dependencies == run.dependencies + listings.flatten(),
    decreases listings.len(),
{
    if listings.len() == 0 {
        assert(run.dependencies + listings.flatten() =~= run.dependencies);
    } else {
        lemma_recorded(run, listings.drop_last());
        assert(listings =~= listings.drop_last().push(listings.last()));
        listings.drop_last().lemma_flatten_push(listings.last());
        assert(run.dependencies + listings.drop_last().flatten() + listings.last()
            =~= run.dependencies + (listings.drop_last().flatten() + listings.last()));
    }
}

} // verus!
