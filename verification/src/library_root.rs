//! Locating the package that a file belongs to.

use vstd::prelude::*;

use crate::path::{parent_of, ComponentPath, ComponentView, PathView};

verus! {

/// Maximum number of ancestor directories to inspect when locating a manifest.
pub const LIBRARY_ROOT_MAX_DEPTH: usize = 6;

/// Package manifest filenames used to identify a dependency's source root, in
/// the order in which they are looked for.
pub open spec fn manifest_names() -> Seq<Seq<u8>> {
    seq![
        vstd::utf8::encode_utf8("Cargo.toml"@),
        vstd::utf8::encode_utf8("package.json"@),
        vstd::utf8::encode_utf8("pyproject.toml"@),
        vstd::utf8::encode_utf8("go.mod"@),
    ]
}

/// The package manifest filenames.
pub fn library_manifests() -> (names: Vec<Vec<u8>>)
    ensures
        names@.len() == manifest_names().len(),
        forall|m: int| 0 <= m < names@.len() ==> (#[trigger] names@[m])@ == manifest_names()[m],
{
    let mut names: Vec<Vec<u8>> = Vec::new();
    names.push(vstd::slice::slice_to_vec("Cargo.toml".as_bytes()));
    names.push(vstd::slice::slice_to_vec("package.json".as_bytes()));
    names.push(vstd::slice::slice_to_vec("pyproject.toml".as_bytes()));
    names.push(vstd::slice::slice_to_vec("go.mod".as_bytes()));
    names
}

/// Where the `m`th manifest of a package rooted at `dir` would be.
pub open spec fn manifest_path(dir: PathView, m: int) -> PathView {
    dir.push(ComponentView::Normal(manifest_names()[m]))
}

/// The directory `level` steps above `dir`, if there are as many.
pub open spec fn ancestor(dir: PathView, level: nat) -> Option<PathView>
    decreases level,
{
    if level == 0 {
        Some(dir)
    } else {
        match ancestor(dir, (level - 1) as nat) {
            Some(below) => parent_of(below),
            None => None,
        }
    }
}

/// The directory searched at `level` for the package of `path`: the one that
/// holds `path`, then its ancestors.
pub open spec fn searched_dir(path: PathView, level: nat) -> Option<PathView> {
    match parent_of(path) {
        Some(dir) => ancestor(dir, level),
        None => None,
    }
}

/// `is_file` was asked about `path` and answered `answer`.
pub open spec fn answered<F: Fn(&ComponentPath) -> bool>(
    is_file: F,
    path: PathView,
    answer: bool,
) -> bool {
    exists|asked: ComponentPath| asked@ == path && #[trigger] call_ensures(is_file, (&asked,), answer)
}

/// `is_file` found none of the first `count` manifests in `dir`.
pub open spec fn lacks_manifests<F: Fn(&ComponentPath) -> bool>(
    is_file: F,
    dir: PathView,
    count: int,
) -> bool {
    forall|m: int| 0 <= m < count ==> answered(is_file, #[trigger] manifest_path(dir, m), false)
}

/// `is_file` found a manifest in `dir`, and none of those looked for before it.
pub open spec fn has_manifest<F: Fn(&ComponentPath) -> bool>(is_file: F, dir: PathView) -> bool {
    exists|m: int|
        0 <= m < manifest_names().len() && answered(is_file, #[trigger] manifest_path(dir, m), true)
            && lacks_manifests(is_file, dir, m)
}

/// None of the directories searched below `level` holds a manifest.
pub open spec fn no_root_below<F: Fn(&ComponentPath) -> bool>(
    is_file: F,
    path: PathView,
    level: int,
) -> bool {
    forall|below: nat|
        below < level ==> (#[trigger] searched_dir(path, below) matches Some(dir) ==> lacks_manifests(
            is_file,
            dir,
            manifest_names().len() as int,
        ))
}

/// `root` is what a search for the package of `path` ends in, given the
/// answers of `is_file`: the nearest searched directory that holds a manifest,
/// or `None` if no directory within the depth limit does.
pub open spec fn is_library_root<F: Fn(&ComponentPath) -> bool>(
    is_file: F,
    path: PathView,
    root: Option<PathView>,
) -> bool {
    match root {
        Some(root) => exists|level: nat|
            level < LIBRARY_ROOT_MAX_DEPTH && #[trigger] searched_dir(path, level) == Some(root)
                && has_manifest(is_file, root) && no_root_below(is_file, path, level as int),
        None => no_root_below(is_file, path, LIBRARY_ROOT_MAX_DEPTH as int),
    }
}

/// Asks for the manifests of `dir` in order until one is there.
fn contains_manifest<F: Fn(&ComponentPath) -> bool>(dir: &ComponentPath, is_file: &F) -> (found: bool)
    requires
        forall|path: &ComponentPath| #[trigger] call_requires(*is_file, (path,)),
    ensures
        found ==> has_manifest(*is_file, dir@),
        !found ==> lacks_manifests(*is_file, dir@, manifest_names().len() as int),
{
    let names = library_manifests();
    let mut m: usize = 0;
    while m < names.len()
        invariant
            m <= names@.len(),
            names@.len() == manifest_names().len(),
            forall|i: int| 0 <= i < names@.len() ==> (#[trigger] names@[i])@ == manifest_names()[i],
            forall|path: &ComponentPath| #[trigger] call_requires(*is_file, (path,)),
            lacks_manifests(*is_file, dir@, m as int),
        decreases names@.len() - m,
    {
        let candidate = dir.join(&names[m]);
        let there = is_file(&candidate);
        assert(candidate@ == manifest_path(dir@, m as int));
        assert(answered(*is_file, manifest_path(dir@, m as int), there));
        if there {
            return true;
        }
        m += 1;
    }
    false
}

/// Walks up from `abs_path`'s parent directory, returning the first ancestor
/// that directly contains a known package manifest. Returns `None` if none is
/// found within [`LIBRARY_ROOT_MAX_DEPTH`] levels. `is_file` tells whether a
/// path names an existing file.
pub fn resolve_library_root<F: Fn(&ComponentPath) -> bool>(
    abs_path: &ComponentPath,
    is_file: &F,
) -> (root: Option<ComponentPath>)
    requires
        forall|path: &ComponentPath| #[trigger] call_requires(*is_file, (path,)),
    ensures
        match root {
            Some(root) => is_library_root(*is_file, abs_path@, Some(root@)),
            None => is_library_root(*is_file, abs_path@, None),
        },
{
    let mut dir = match abs_path.parent() {
        Some(dir) => dir,
        None => {
            return None;
        },
    };
    let ghost start = dir@;
    let mut level: usize = 0;
    while level < LIBRARY_ROOT_MAX_DEPTH
        invariant
            level <= LIBRARY_ROOT_MAX_DEPTH,
            parent_of(abs_path@) == Some(start),
            level < LIBRARY_ROOT_MAX_DEPTH ==> ancestor(start, level as nat) == Some(dir@),
            forall|path: &ComponentPath| #[trigger] call_requires(*is_file, (path,)),
            no_root_below(*is_file, abs_path@, level as int),
        decreases LIBRARY_ROOT_MAX_DEPTH - level,
    {
        assert(searched_dir(abs_path@, level as nat) == Some(dir@));
        if contains_manifest(&dir, is_file) {
            return Some(dir);
        }
        match dir.parent() {
            Some(parent) => {
                assert(ancestor(start, (level + 1) as nat) == Some(parent@));
                dir = parent;
            },
            None => {
                proof {
                    lemma_no_ancestors_above(start, level as nat);
                }
                assert(no_root_below(*is_file, abs_path@, LIBRARY_ROOT_MAX_DEPTH as int));
                return None;
            },
        }
        level += 1;
    }
    None
}

/// Above a directory without a parent there are no more ancestors.
proof fn lemma_no_ancestors_above(dir: PathView, level: nat)
    requires
        ancestor(dir, level) matches Some(top) && parent_of(top) is None,
    ensures
        forall|above: nat| above > level ==> #[trigger] ancestor(dir, above) is None,
{
    assert forall|above: nat| above > level implies #[trigger] ancestor(dir, above) is None by {
        lemma_no_ancestor_at(dir, level, above);
    }
}

proof fn lemma_no_ancestor_at(dir: PathView, level: nat, above: nat)
    requires
        above > level,
        ancestor(dir, level) matches Some(top) && parent_of(top) is None,
    ensures
        ancestor(dir, above) is None,
    decreases above,
{
    if above > level + 1 {
        lemma_no_ancestor_at(dir, level, (above - 1) as nat);
    }
}

} // verus!
