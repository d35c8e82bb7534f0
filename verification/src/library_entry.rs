//! Finding the entry of a path in the surfaced libraries.

use vstd::prelude::*;

use crate::context::{App, PathStyle, ProjectEntryId, WorktreeId};
use crate::path::{ComponentPath, PathView};

verus! {

broadcast use vstd::std_specs::hash::group_hash_axioms;

/// Looking for the entry for `path` in the library that `worktree` backs gave
/// `found`: nothing if the path does not lie at or below the worktree's root or
/// has no relative form.
pub open spec fn library_lookup<
    R: Fn(&ComponentPath, PathStyle) -> Option<String>,
    E: Fn(u64, &String) -> Option<u64>,
>(
    app: App,
    worktree: u64,
    path: PathView,
    style: PathStyle,
    to_rel_path: R,
    entry_for_path: E,
    found: Option<u64>,
) -> bool {
    match app.root_of(worktree) {
        Some(root) if root.is_prefix_of(path) => exists|rel: ComponentPath, rel_path: Option<String>|
            rel@ == path.skip(root.len() as int) && #[trigger] call_ensures(
                to_rel_path,
                (&rel, style),
                rel_path,
            ) && match rel_path {
                Some(rel_path) => call_ensures(entry_for_path, (worktree, &rel_path), found),
                None => found is None,
            },
        _ => found is None,
    }
}

/// `found` is the entry for `path` in the surfaced libraries: that of the first
/// library in path order that has one, or `None` if none has.
pub open spec fn is_library_entry<
    R: Fn(&ComponentPath, PathStyle) -> Option<String>,
    E: Fn(u64, &String) -> Option<u64>,
>(
    worktrees: Seq<u64>,
    app: App,
    path: PathView,
    style: PathStyle,
    to_rel_path: R,
    entry_for_path: E,
    found: Option<u64>,
) -> bool {
    match found {
        Some(_) => exists|i: int|
            0 <= i < worktrees.len() && library_lookup(
                app,
                #[trigger] worktrees[i],
                path,
                style,
                to_rel_path,
                entry_for_path,
                found,
            ) && no_entry_before(worktrees, app, path, style, to_rel_path, entry_for_path, i),
        None => no_entry_before(
            worktrees,
            app,
            path,
            style,
            to_rel_path,
            entry_for_path,
            worktrees.len() as int,
        ),
    }
}

/// None of the first `count` libraries has an entry for `path`.
pub open spec fn no_entry_before<
    R: Fn(&ComponentPath, PathStyle) -> Option<String>,
    E: Fn(u64, &String) -> Option<u64>,
>(
    worktrees: Seq<u64>,
    app: App,
    path: PathView,
    style: PathStyle,
    to_rel_path: R,
    entry_for_path: E,
    count: int,
) -> bool {
    forall|i: int|
        0 <= i < count ==> library_lookup(
            app,
            #[trigger] worktrees[i],
            path,
            style,
            to_rel_path,
            entry_for_path,
            None,
        )
}

/// Looks for the entry for `abs_path` in the library that `worktree` backs.
pub(crate) fn look_up<
    R: Fn(&ComponentPath, PathStyle) -> Option<String>,
    E: Fn(u64, &String) -> Option<u64>,
>(
    worktree: WorktreeId,
    abs_path: &ComponentPath,
    style: PathStyle,
    cx: &App,
    to_rel_path: &R,
    entry_for_path: &E,
) -> (found: Option<ProjectEntryId>)
    requires
        forall|rel: &ComponentPath, style: PathStyle| #[trigger]
            call_requires(*to_rel_path, (rel, style)),
        forall|worktree: u64, rel_path: &String| #[trigger]
            call_requires(*entry_for_path, (worktree, rel_path)),
    ensures
        library_lookup(*cx, worktree, abs_path@, style, *to_rel_path, *entry_for_path, found),
{
    let root = match cx.worktree_roots.get(&worktree) {
        Some(root) => root,
        None => {
            return None;
        },
    };
    let rel = match abs_path.strip_prefix(root) {
        Some(rel) => rel,
        None => {
            return None;
        },
    };
    let written = to_rel_path(&rel, style);
    assert(call_ensures(*to_rel_path, (&rel, style), written));
    match written {
        Some(rel_path) => entry_for_path(worktree, &rel_path),
        None => None,
    }
}

} // verus!
