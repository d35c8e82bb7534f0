//! What the library makes of the values handed to it: paths, settings, files,
//! listings and entries. The laws speak of components, bytes, answers and
//! positions themselves.

use vstd::prelude::*;

use crate::context::{
    App, BufferState, Context, Effect, EffectView, PathStyle, SourceWorktree,
};
use crate::enumeration::{listed_paths, Dependency, RunView};
use crate::library_entry::{is_library_entry, library_lookup, no_entry_before};
use crate::library_root::{
    answered, has_manifest, is_library_root, lacks_manifests, manifest_names, manifest_path,
    no_root_below, searched_dir,
};
use crate::path::{
    bytes_lt, component_lt, lemma_path_lt_irreflexive, lies_under, parent_of, path_lt, path_views,
    ComponentPath, ComponentView, PathComponent, PathView,
};
use crate::path_map::{in_path_order, lemma_path_order_exists};
use crate::settings::{removal_mode, shows_all, ExternalLibrariesRemoval, MergedSettings};

verus! {

// Values.

/// A path stands for its components, in order and none left out.
pub proof fn law_path_stands_for_its_components(path: ComponentPath)
    ensures
        path@.len() == path.components@.len(),
        forall|i: int| 0 <= i < path@.len() ==> #[trigger] path@[i] == path.components@[i]@,
{
}

/// A component stands for its kind and its name.
pub proof fn law_component_stands_for_kind_and_name(component: PathComponent)
    ensures
        match component {
            PathComponent::Prefix(name) => component@ == ComponentView::Prefix(name@),
            PathComponent::RootDir => component@ == ComponentView::RootDir,
            PathComponent::CurDir => component@ == ComponentView::CurDir,
            PathComponent::ParentDir => component@ == ComponentView::ParentDir,
            PathComponent::Normal(name) => component@ == ComponentView::Normal(name@),
        },
{
}

/// Several paths stand for what each of them stands for.
pub proof fn law_paths_stand_for_each_path(paths: Seq<ComponentPath>)
    ensures
        path_views(paths).len() == paths.len(),
        forall|i: int| 0 <= i < paths.len() ==> #[trigger] path_views(paths)[i] == paths[i]@,
{
}

/// What the store asks for reaches the application as it was asked for: every
/// effect, in order, with its kind and its contents.
pub proof fn law_effects_are_handed_over(cx: Context)
    ensures
        cx.asked().len() == cx.effects@.len(),
        forall|i: int| 0 <= i < cx.effects@.len() ==> #[trigger] cx.asked()[i] == cx.effects@[i]@,
{
}

/// An effect stands for its kind and its contents.
pub proof fn law_effect_stands_for_its_contents(effect: Effect)
    ensures
        match effect {
            Effect::Emit(event) => effect@ == EffectView::Emit(event),
            Effect::Notify => effect@ == EffectView::Notify,
            Effect::StartEnumerationTimer { task, delay_ms } => effect@
                == (EffectView::StartEnumerationTimer { task, delay_ms }),
            Effect::ListDependencies { roots, providers } => {
                &&& effect@ matches EffectView::ListDependencies { roots: views, providers: count }
                &&& count == providers
                &&& views.len() == roots@.len()
                &&& forall|i: int| 0 <= i < roots@.len() ==> #[trigger] views[i] == roots@[i]@
            },
            Effect::CreateWorktree { library_root, visible, origin, buffer_id } => effect@
                == (EffectView::CreateWorktree {
                library_root: library_root@,
                visible,
                origin,
                buffer_id,
            }),
        },
{
}

/// A worktree's root is the one that the application has for it.
pub proof fn law_worktree_root_is_looked_up(app: App, worktree: u64)
    ensures
        app.worktree_roots@.contains_key(worktree) ==> app.root_of(worktree) == Some(
            app.worktree_roots@[worktree]@,
        ),
        !app.worktree_roots@.contains_key(worktree) ==> app.root_of(worktree) is None,
{
}

/// The visible roots are those of all visible worktrees, and no others.
pub proof fn law_visible_roots_are_all_listed(app: App, path: PathView)
    ensures
        app.visible_roots().contains(path) <==> exists|i: int|
            0 <= i < app.visible_worktree_roots@.len() && (#[trigger] app.visible_worktree_roots@[i])@
                == path,
{
}

/// A buffer is external exactly if it shows a local file of a known worktree
/// that is not visible; what is read of it is that file's path.
pub proof fn law_external_buffer_shows_a_local_file_of_an_invisible_worktree(
    buffer: BufferState,
    app: App,
    path: PathView,
)
    ensures
        buffer.external_file(app) == Some(path) <==> {
            &&& buffer.file matches Some(file)
            &&& file.local_abs_path matches Some(local)
            &&& local@ == path
            &&& app.worktree_visibility@.contains_key(file.worktree_id)
            &&& app.worktree_visibility@[file.worktree_id] == false
        },
{
}

/// An entry needs translation exactly if it lives in an invisible single-file
/// worktree that has it; what is read of it is its path.
pub proof fn law_single_file_entry_lives_in_an_invisible_single_file_worktree(
    source: SourceWorktree,
    path: PathView,
)
    ensures
        source.single_file_entry() == Some(path) <==> {
            &&& !source.is_visible
            &&& source.is_single_file
            &&& source.entry_path matches Some(entry)
            &&& entry@ == path
        },
{
}

/// The settings say what their `project_panel` section says; what is not set
/// there falls back to automatic removal and to no eager enumeration.
pub proof fn law_settings_say_what_is_set(settings: Option<MergedSettings>)
    ensures
        match settings {
            Some(merged) => match merged.project_panel {
                Some(panel) => {
                    &&& match panel.external_libraries_removal {
                        Some(mode) => removal_mode(settings) == mode,
                        None => removal_mode(settings) == ExternalLibrariesRemoval::AutoRemove,
                    }
                    &&& match panel.show_all_external_libraries {
                        Some(show_all) => shows_all(settings) == show_all,
                        None => shows_all(settings) == false,
                    }
                },
                None => removal_mode(settings) == ExternalLibrariesRemoval::AutoRemove && !shows_all(
                    settings,
                ),
            },
            None => removal_mode(settings) == ExternalLibrariesRemoval::AutoRemove && !shows_all(
                settings,
            ),
        },
{
}

// Paths.

/// What a directory holds has that directory as its parent, whatever the
/// directory's length. A root, a bare prefix and the empty path have no parent.
pub proof fn law_parent_undoes_descending(dir: PathView, name: Seq<u8>)
    ensures
        parent_of(dir.push(ComponentView::Normal(name))) == Some(dir),
        parent_of(dir.push(ComponentView::ParentDir)) == Some(dir),
        parent_of(dir.push(ComponentView::CurDir)) == Some(dir),
        parent_of(dir.push(ComponentView::RootDir)) is None,
        parent_of(dir.push(ComponentView::Prefix(name))) is None,
        parent_of(Seq::empty()) is None,
{
    assert(dir.push(ComponentView::Normal(name)).drop_last() =~= dir);
    assert(dir.push(ComponentView::ParentDir).drop_last() =~= dir);
    assert(dir.push(ComponentView::CurDir).drop_last() =~= dir);
}

/// A path lies under a root exactly if it goes on from that root by at least
/// one component.
pub proof fn law_paths_under_a_root_go_on_from_it(path: PathView, root: PathView, rest: PathView)
    ensures
        lies_under(root + rest, root) <==> rest.len() > 0,
        lies_under(path, root) <==> root.len() < path.len() && forall|i: int|
            0 <= i < root.len() ==> #[trigger] path[i] == root[i],
{
    assert((root + rest).subrange(0, root.len() as int) =~= root);
    if root.len() < path.len() && forall|i: int|
        0 <= i < root.len() ==> #[trigger] path[i] == root[i] {
        assert(path.subrange(0, root.len() as int) =~= root);
    }
    if lies_under(path, root) {
        assert forall|i: int| 0 <= i < root.len() implies #[trigger] path[i] == root[i] by {
            assert(path.subrange(0, root.len() as int)[i] == root[i]);
        }
    }
}

/// Names compare at the first byte in which they differ; a name comes before
/// those that it is a proper beginning of.
pub proof fn law_names_compare_at_their_first_difference(
    common: Seq<u8>,
    a: u8,
    b: u8,
    rest_a: Seq<u8>,
    rest_b: Seq<u8>,
)
    ensures
        a != b ==> bytes_lt(common + seq![a] + rest_a, common + seq![b] + rest_b) == (a < b),
        bytes_lt(common, common + rest_b) == (rest_b.len() > 0),
        !bytes_lt(common + rest_a, common),
    decreases common.len(),
{
    if common.len() == 0 {
        assert(common + seq![a] + rest_a =~= seq![a] + rest_a);
        assert(common + seq![b] + rest_b =~= seq![b] + rest_b);
        assert(common + rest_b =~= rest_b);
    } else {
        let tail = common.drop_first();
        law_names_compare_at_their_first_difference(tail, a, b, rest_a, rest_b);
        assert((common + seq![a] + rest_a).drop_first() =~= tail + seq![a] + rest_a);
        assert((common + seq![b] + rest_b).drop_first() =~= tail + seq![b] + rest_b);
        assert((common + rest_a).drop_first() =~= tail + rest_a);
        assert((common + rest_b).drop_first() =~= tail + rest_b);
    }
}

/// Components compare by their kinds, in the order prefix, root, current
/// directory, parent directory, name; two prefixes and two names compare by
/// their bytes.
pub proof fn law_components_compare_by_kind_and_name(x: Seq<u8>, y: Seq<u8>, i: int, j: int)
    requires
        0 <= i < 5,
        0 <= j < 5,
    ensures
        ({
            let kinds = seq![
                ComponentView::Prefix(x),
                ComponentView::RootDir,
                ComponentView::CurDir,
                ComponentView::ParentDir,
                ComponentView::Normal(y),
            ];
            i != j ==> component_lt(kinds[i], kinds[j]) == (i < j)
        }),
        !component_lt(ComponentView::RootDir, ComponentView::RootDir),
        !component_lt(ComponentView::CurDir, ComponentView::CurDir),
        !component_lt(ComponentView::ParentDir, ComponentView::ParentDir),
        component_lt(ComponentView::Prefix(x), ComponentView::Prefix(y)) == bytes_lt(x, y),
        component_lt(ComponentView::Normal(x), ComponentView::Normal(y)) == bytes_lt(x, y),
{
}

/// Paths compare at the first component in which they differ; a path comes
/// before those that lie under it.
pub proof fn law_paths_compare_at_their_first_difference(
    common: PathView,
    a: ComponentView,
    b: ComponentView,
    rest_a: PathView,
    rest_b: PathView,
)
    ensures
        a != b ==> path_lt(common + seq![a] + rest_a, common + seq![b] + rest_b) == component_lt(
            a,
            b,
        ),
        path_lt(common, common + rest_b) == (rest_b.len() > 0),
        !path_lt(common + rest_a, common),
    decreases common.len(),
{
    if common.len() == 0 {
        assert(common + seq![a] + rest_a =~= seq![a] + rest_a);
        assert(common + seq![b] + rest_b =~= seq![b] + rest_b);
        assert(common + rest_b =~= rest_b);
    } else {
        let tail = common.drop_first();
        law_paths_compare_at_their_first_difference(tail, a, b, rest_a, rest_b);
        assert((common + seq![a] + rest_a).drop_first() =~= tail + seq![a] + rest_a);
        assert((common + seq![b] + rest_b).drop_first() =~= tail + seq![b] + rest_b);
        assert((common + rest_a).drop_first() =~= tail + rest_a);
        assert((common + rest_b).drop_first() =~= tail + rest_b);
        assert(!component_lt(common[0], common[0])) by {
            lemma_path_lt_irreflexive(seq![common[0]]);
        }
    }
}

/// Paths put in order are the same paths, each once, and every path comes
/// before those after it.
pub proof fn law_paths_in_order_are_the_same_paths(paths: Set<PathView>)
    requires
        paths.finite(),
    ensures
        forall|path: PathView| #[trigger]
            in_path_order(paths).contains(path) <==> paths.contains(path),
        forall|i: int, j: int|
            0 <= i < j < in_path_order(paths).len() ==> path_lt(
                #[trigger] in_path_order(paths)[i],
                #[trigger] in_path_order(paths)[j],
            ) && in_path_order(paths)[i] != in_path_order(paths)[j],
{
    lemma_path_order_exists(paths);
    let sorted = in_path_order(paths);
    assert forall|i: int, j: int| 0 <= i < j < sorted.len() implies path_lt(
        #[trigger] sorted[i],
        #[trigger] sorted[j],
    ) && sorted[i] != sorted[j] by {
        lemma_path_lt_irreflexive(sorted[i]);
    }
}

// Packages. Here `files` are the paths that are files, and `packages` the
// directories that directly contain one of the four manifests.

/// The manifests are those of Cargo, npm, Python projects and Go modules, looked
/// for in this order.
pub proof fn law_manifests_are_these_four()
    ensures
        manifest_names() == seq![
            vstd::utf8::encode_utf8("Cargo.toml"@),
            vstd::utf8::encode_utf8("package.json"@),
            vstd::utf8::encode_utf8("pyproject.toml"@),
            vstd::utf8::encode_utf8("go.mod"@),
        ],
{
}

/// A file up to six levels below a package belongs to it, whatever the length
/// of the package's path, unless a directory in between is a package itself.
pub proof fn law_file_belongs_to_the_package_above_it<F: Fn(&ComponentPath) -> bool>(
    is_file: F,
    files: spec_fn(PathView) -> bool,
    packages: spec_fn(PathView) -> bool,
    package: PathView,
    below: PathView,
    root: Option<PathView>,
)
    requires
        forall|asked: ComponentPath, answer: bool| #[trigger]
            call_ensures(is_file, (&asked,), answer) ==> answer == files(asked@),
        forall|dir: PathView| #[trigger]
            packages(dir) == (
            files(dir.push(ComponentView::Normal(vstd::utf8::encode_utf8("Cargo.toml"@)))) || files(
                dir.push(ComponentView::Normal(vstd::utf8::encode_utf8("package.json"@))),
            ) || files(
                dir.push(ComponentView::Normal(vstd::utf8::encode_utf8("pyproject.toml"@))),
            ) || files(dir.push(ComponentView::Normal(vstd::utf8::encode_utf8("go.mod"@))))),
        packages(package),
        1 <= below.len() <= 6,
        forall|i: int|
            0 <= i < below.len() ==> !((#[trigger] below[i]) is Prefix) && !(below[i] is RootDir),
        forall|k: int| 0 < k < below.len() ==> !packages(package + #[trigger] below.take(k)),
        is_library_root(is_file, package + below, root),
    ensures
        root == Some(package),
{
    let path = package + below;
    assert forall|k: int| package.len() < k < path.len() implies !packages(
        #[trigger] path.take(k),
    ) by {
        assert(path.take(k) =~= package + below.take(k - package.len()));
    }
    assert(path.take(package.len() as int) =~= package);
    assert forall|k: int| package.len() <= k < path.len() implies !((#[trigger] path[k]) is Prefix)
        && !(path[k] is RootDir) by {
        assert(path[k] == below[k - package.len()]);
    }
    match root {
        Some(root) => {
            law_found_package_is_the_nearest(is_file, files, packages, path, root);
            assert(root =~= path.take(root.len() as int));
            if root.len() < package.len() {
                assert(packages(path.take(package.len() as int)));
            }
            assert(root.len() == package.len());
        },
        None => {
            law_no_package_found_means_none_within_reach(is_file, files, packages, path);
            assert(packages(path.take(package.len() as int)));
        },
    }
}

/// The package that a search ends in is a package, at most six levels above the
/// file, and no directory between it and the file is a package.
pub proof fn law_found_package_is_the_nearest<F: Fn(&ComponentPath) -> bool>(
    is_file: F,
    files: spec_fn(PathView) -> bool,
    packages: spec_fn(PathView) -> bool,
    path: PathView,
    root: PathView,
)
    requires
        forall|asked: ComponentPath, answer: bool| #[trigger]
            call_ensures(is_file, (&asked,), answer) ==> answer == files(asked@),
        forall|dir: PathView| #[trigger]
            packages(dir) == (
            files(dir.push(ComponentView::Normal(vstd::utf8::encode_utf8("Cargo.toml"@)))) || files(
                dir.push(ComponentView::Normal(vstd::utf8::encode_utf8("package.json"@))),
            ) || files(
                dir.push(ComponentView::Normal(vstd::utf8::encode_utf8("pyproject.toml"@))),
            ) || files(dir.push(ComponentView::Normal(vstd::utf8::encode_utf8("go.mod"@))))),
        is_library_root(is_file, path, Some(root)),
    ensures
        packages(root),
        root.len() < path.len() <= root.len() + 6,
        root == path.take(root.len() as int),
        forall|k: int| root.len() < k < path.len() ==> !packages(#[trigger] path.take(k)),
        forall|k: int|
            root.len() <= k < path.len() ==> !((#[trigger] path[k]) is Prefix) && !(
            path[k] is RootDir),
{
    let level = choose|level: nat|
        level < 6 && #[trigger] searched_dir(path, level) == Some(root) && has_manifest(
            is_file,
            root,
        ) && no_root_below(is_file, path, level as int);
    lemma_searched_dir(path, level);
    let m = choose|m: int|
        0 <= m < manifest_names().len() && answered(is_file, #[trigger] manifest_path(root, m), true)
            && lacks_manifests(is_file, root, m);
    assert(files(manifest_path(root, m)));
    assert(packages(root));
    assert forall|k: int| root.len() < k < path.len() implies !packages(#[trigger] path.take(k)) by {
        let lower = (path.len() - 1 - k) as nat;
        lemma_searched_dir(path, lower);
        assert(searched_dir(path, lower) == Some(path.take(k)));
        lemma_lacking_manifests(is_file, files, packages, path.take(k));
    }
}

/// If a search finds no package, none of the six directories above the file is
/// one.
pub proof fn law_no_package_found_means_none_within_reach<F: Fn(&ComponentPath) -> bool>(
    is_file: F,
    files: spec_fn(PathView) -> bool,
    packages: spec_fn(PathView) -> bool,
    path: PathView,
)
    requires
        forall|asked: ComponentPath, answer: bool| #[trigger]
            call_ensures(is_file, (&asked,), answer) ==> answer == files(asked@),
        forall|dir: PathView| #[trigger]
            packages(dir) == (
            files(dir.push(ComponentView::Normal(vstd::utf8::encode_utf8("Cargo.toml"@)))) || files(
                dir.push(ComponentView::Normal(vstd::utf8::encode_utf8("package.json"@))),
            ) || files(
                dir.push(ComponentView::Normal(vstd::utf8::encode_utf8("pyproject.toml"@))),
            ) || files(dir.push(ComponentView::Normal(vstd::utf8::encode_utf8("go.mod"@))))),
        is_library_root(is_file, path, None),
    ensures
        forall|k: int|
            0 <= k < path.len() <= k + 6 && (forall|j: int|
                k <= j < path.len() ==> !((#[trigger] path[j]) is Prefix) && !(path[j] is RootDir))
                ==> !packages(#[trigger] path.take(k)),
{
    assert forall|k: int|
        0 <= k < path.len() <= k + 6 && (forall|j: int|
            k <= j < path.len() ==> !((#[trigger] path[j]) is Prefix) && !(path[j] is RootDir)) implies !packages(
        #[trigger] path.take(k),
    ) by {
        let level = (path.len() - 1 - k) as nat;
        lemma_searched_dir(path, level);
        assert(searched_dir(path, level) == Some(path.take(k)));
        lemma_lacking_manifests(is_file, files, packages, path.take(k));
    }
}

/// The directory searched at a level is the path without as many components
/// and one more, if none of these is a root or a prefix.
proof fn lemma_searched_dir(path: PathView, level: nat)
    ensures
        searched_dir(path, level) is Some <==> level < path.len() && forall|j: int|
            path.len() - 1 - level <= j < path.len() ==> !((#[trigger] path[j]) is Prefix) && !(
            path[j] is RootDir),
        searched_dir(path, level) matches Some(dir) ==> dir == path.take(path.len() - 1 - level),
    decreases level,
{
    if level > 0 {
        lemma_searched_dir(path, (level - 1) as nat);
        if let Some(below) = searched_dir(path, (level - 1) as nat) {
            assert(searched_dir(path, level) == parent_of(below));
            if below.len() > 0 {
                assert(below.last() == path[path.len() - 1 - level]);
                assert(below.drop_last() =~= path.take(path.len() - 1 - level));
            }
        } else {
            assert(searched_dir(path, level) is None);
            if level < path.len() && forall|j: int|
                path.len() - 1 - level <= j < path.len() ==> !((#[trigger] path[j]) is Prefix) && !(
                path[j] is RootDir) {
                assert(searched_dir(path, (level - 1) as nat) is Some);
            }
        }
    } else if path.len() > 0 {
        assert(path.drop_last() =~= path.take(path.len() - 1));
        assert(path.last() == path[path.len() - 1]);
    }
}

/// A directory in which none of the manifests was found is no package.
proof fn lemma_lacking_manifests<F: Fn(&ComponentPath) -> bool>(
    is_file: F,
    files: spec_fn(PathView) -> bool,
    packages: spec_fn(PathView) -> bool,
    dir: PathView,
)
    requires
        forall|asked: ComponentPath, answer: bool| #[trigger]
            call_ensures(is_file, (&asked,), answer) ==> answer == files(asked@),
        forall|dir: PathView| #[trigger]
            packages(dir) == (
            files(dir.push(ComponentView::Normal(vstd::utf8::encode_utf8("Cargo.toml"@)))) || files(
                dir.push(ComponentView::Normal(vstd::utf8::encode_utf8("package.json"@))),
            ) || files(
                dir.push(ComponentView::Normal(vstd::utf8::encode_utf8("pyproject.toml"@))),
            ) || files(dir.push(ComponentView::Normal(vstd::utf8::encode_utf8("go.mod"@))))),
        lacks_manifests(is_file, dir, manifest_names().len() as int),
    ensures
        !packages(dir),
{
    assert forall|m: int| 0 <= m < manifest_names().len() implies !files(
        #[trigger] manifest_path(dir, m),
    ) by {
        assert(answered(is_file, manifest_path(dir, m), false));
    }
    assert(!files(manifest_path(dir, 0)));
    assert(!files(manifest_path(dir, 1)));
    assert(!files(manifest_path(dir, 2)));
    assert(!files(manifest_path(dir, 3)));
}

// Entries. Here `forms` are the relative forms of paths, `entries` what each
// worktree has at a relative form, and `entry_in` the entry that each worktree
// has for the path in question: that at the rest of the path below the
// worktree's root, however long that rest is.

/// An entry translates to that of the first library which has one for its
/// path, and to nothing only if no library has one.
pub proof fn law_entry_translates_to_the_first_library_that_has_it<
    R: Fn(&ComponentPath, PathStyle) -> Option<String>,
    E: Fn(u64, &String) -> Option<u64>,
>(
    worktrees: Seq<u64>,
    app: App,
    path: PathView,
    style: PathStyle,
    to_rel_path: R,
    entry_for_path: E,
    forms: spec_fn(PathView, PathStyle) -> Option<Seq<char>>,
    entries: spec_fn(u64, Seq<char>) -> Option<u64>,
    entry_in: spec_fn(u64) -> Option<u64>,
    found: Option<u64>,
)
    requires
        forall|rel: ComponentPath, asked: PathStyle, form: Option<String>| #[trigger]
            call_ensures(to_rel_path, (&rel, asked), form) ==> match form {
                Some(form) => forms(rel@, asked) == Some(form@),
                None => forms(rel@, asked) is None,
            },
        forall|worktree: u64, form: String, entry: Option<u64>| #[trigger]
            call_ensures(entry_for_path, (worktree, &form), entry) ==> entry == entries(
                worktree,
                form@,
            ),
        forall|worktree: u64| #[trigger]
            entry_in(worktree) == if app.worktree_roots@.contains_key(worktree)
                && app.worktree_roots@[worktree]@.is_prefix_of(path) {
                match forms(path.skip(app.worktree_roots@[worktree]@.len() as int), style) {
                    Some(form) => entries(worktree, form),
                    None => None,
                }
            } else {
                None
            },
        is_library_entry(worktrees, app, path, style, to_rel_path, entry_for_path, found),
    ensures
        match found {
            Some(entry) => exists|i: int|
                0 <= i < worktrees.len() && entry_in(#[trigger] worktrees[i]) == Some(entry) && forall|
                    j: int,
                |
                    0 <= j < i ==> entry_in(#[trigger] worktrees[j]) is None,
            None => forall|i: int|
                0 <= i < worktrees.len() ==> entry_in(#[trigger] worktrees[i]) is None,
        },
{
    assert forall|worktree: u64, result: Option<u64>| #[trigger]
        library_lookup(
            app,
            worktree,
            path,
            style,
            to_rel_path,
            entry_for_path,
            result,
        ) implies result == entry_in(worktree) by {
        let entry = entry_in(worktree);
        if app.worktree_roots@.contains_key(worktree) {
            let root = app.worktree_roots@[worktree]@;
            if root.is_prefix_of(path) {
                let (rel, form) = choose|rel: ComponentPath, form: Option<String>|
                    rel@ == path.skip(root.len() as int) && #[trigger] call_ensures(
                        to_rel_path,
                        (&rel, style),
                        form,
                    ) && match form {
                        Some(form) => call_ensures(entry_for_path, (worktree, &form), result),
                        None => result is None,
                    };
                assert(call_ensures(to_rel_path, (&rel, style), form));
            }
        }
    }
    match found {
        Some(entry) => {
            let i = choose|i: int|
                0 <= i < worktrees.len() && library_lookup(
                    app,
                    #[trigger] worktrees[i],
                    path,
                    style,
                    to_rel_path,
                    entry_for_path,
                    found,
                ) && no_entry_before(worktrees, app, path, style, to_rel_path, entry_for_path, i);
            assert(entry_in(worktrees[i]) == Some(entry));
            assert forall|j: int| 0 <= j < i implies entry_in(#[trigger] worktrees[j]) is None by {
                assert(library_lookup(
                    app,
                    worktrees[j],
                    path,
                    style,
                    to_rel_path,
                    entry_for_path,
                    None,
                ));
            }
        },
        None => {
            assert forall|i: int| 0 <= i < worktrees.len() implies entry_in(
                #[trigger] worktrees[i],
            ) is None by {
                assert(library_lookup(
                    app,
                    worktrees[i],
                    path,
                    style,
                    to_rel_path,
                    entry_for_path,
                    None,
                ));
            }
        },
    }
}

// Listings.

/// Recording a listing appends the source path of every dependency that it
/// names, in order and none left out; a listing that failed appends nothing.
pub proof fn law_every_listed_dependency_is_recorded<E>(
    run: RunView,
    dependencies: Vec<Dependency>,
    error: E,
)
    ensures
        ({
            let after = run.record(listed_paths(Ok::<Vec<Dependency>, E>(dependencies)));
            &&& after.dependencies.len() == run.dependencies.len() + dependencies@.len()
            &&& forall|i: int|
                0 <= i < run.dependencies.len() ==> #[trigger] after.dependencies[i]
                    == run.dependencies[i]
            &&& forall|i: int|
                0 <= i < dependencies@.len() ==> after.dependencies[run.dependencies.len() + i] == (
                #[trigger] dependencies@[i]).source_path@
            &&& after.roots == run.roots
            &&& after.providers == run.providers
            &&& after.recorded == run.recorded + 1
        }),
        run.record(listed_paths(Err::<Vec<Dependency>, E>(error))) == (RunView {
            recorded: run.recorded + 1,
            ..run
        }),
{
    let failed = run.record(listed_paths(Err::<Vec<Dependency>, E>(error)));
    assert(failed.dependencies =~= run.dependencies);
}

/// A run starts with nothing recorded, and ends when there are as many listings
/// as pairs of a root and a provider.
pub proof fn law_run_ends_with_the_last_pair(roots: Seq<PathView>, providers: nat, run: RunView)
    ensures
        RunView::start(roots, providers).roots == roots,
        RunView::start(roots, providers).providers == providers,
        RunView::start(roots, providers).recorded == 0,
        RunView::start(roots, providers).dependencies == Seq::<PathView>::empty(),
        run.next() is None <==> run.recorded >= run.roots.len() * run.providers,
{
}

/// A run names every pair of a root and a provider in turn: a pair comes next
/// once every provider has been asked about the roots before it, and the
/// providers before it about its root.
pub proof fn law_run_names_every_pair_in_turn(run: RunView, root: int, provider: int)
    requires
        0 <= root < run.roots.len(),
        0 <= provider < run.providers,
    ensures
        run.next() == Some((root, provider)) <==> run.recorded == root * run.providers + provider,
{
    let each = run.providers as int;
    let count = run.recorded as int;
    assert(root * each + provider < run.roots.len() * each) by (nonlinear_arith)
        requires
            root + 1 <= run.roots.len(),
            0 <= provider < each,
    ;
    if count == root * each + provider {
        vstd::arithmetic::div_mod::lemma_fundamental_div_mod_converse(count, each, root, provider);
    }
    vstd::arithmetic::div_mod::lemma_fundamental_div_mod(count, each);
    assert(each * (count / each) == (count / each) * each) by (nonlinear_arith);
}

} // verus!
