use std::collections::HashMap;

use external_libraries::context::{
    App, BufferState, BufferStoreEvent, Context, Effect, ExternalLibrariesEvent, FileState,
    LibraryOrigin, PathStyle, SourceWorktree, WorktreeStoreEvent,
};
use external_libraries::enumeration::{Dependency, EnumerationRun};
use external_libraries::path::{ComponentPath, PathComponent};
use external_libraries::settings::{
    external_libraries_removal, show_all_external_libraries, ExternalLibrariesRemoval, MergedSettings,
    ProjectPanelSettings,
};
use external_libraries::store::ExternalLibrariesStore;

fn absolute(names: &[&str]) -> ComponentPath {
    let mut components = vec![PathComponent::RootDir];
    for text in names {
        components.push(PathComponent::Normal(text.as_bytes().to_vec()));
    }
    ComponentPath::from_components(components)
}

fn settings(removal: ExternalLibrariesRemoval, show_all: bool) -> Option<MergedSettings> {
    Some(MergedSettings {
        project_panel: Some(ProjectPanelSettings {
            external_libraries_removal: Some(removal),
            show_all_external_libraries: Some(show_all),
        }),
    })
}

fn context(settings: Option<MergedSettings>) -> Context {
    Context::new(App {
        settings,
        visible_worktree_roots: vec![],
        worktree_visibility: HashMap::new(),
        worktree_roots: HashMap::new(),
        dependency_providers: 1,
    })
}

fn auto() -> Context {
    context(None)
}

fn showing_all() -> Context {
    context(settings(ExternalLibrariesRemoval::AutoRemove, true))
}

fn changed() -> Vec<Effect> {
    vec![Effect::Emit(ExternalLibrariesEvent::LibrariesChanged), Effect::Notify]
}

fn create(root: &ComponentPath, origin: LibraryOrigin, buffer_id: Option<u64>) -> Effect {
    Effect::CreateWorktree { library_root: root.duplicate(), visible: false, origin, buffer_id }
}

fn take(cx: &mut Context) -> Vec<Effect> {
    std::mem::take(&mut cx.effects)
}

fn buffer(id: u64, worktree_id: u64, path: &ComponentPath) -> BufferStoreEvent {
    BufferStoreEvent::BufferAdded(BufferState {
        remote_id: id,
        file: Some(FileState { worktree_id, local_abs_path: Some(path.duplicate()) }),
    })
}

const INVISIBLE: u64 = 90;
const VISIBLE: u64 = 91;

/// A context in which one worktree is visible and one is not.
fn with_worktrees(mut cx: Context) -> Context {
    cx.app.worktree_visibility.insert(INVISIBLE, false);
    cx.app.worktree_visibility.insert(VISIBLE, true);
    cx
}

fn in_lib(path: &ComponentPath) -> bool {
    *path == absolute(&["lib", "Cargo.toml"])
}

#[test]
fn settings_fall_back_to_defaults() {
    let empty = Some(MergedSettings { project_panel: None });
    let unset = Some(MergedSettings {
        project_panel: Some(ProjectPanelSettings {
            external_libraries_removal: None,
            show_all_external_libraries: None,
        }),
    });
    for given in [None, empty, unset] {
        assert_eq!(external_libraries_removal(&given), ExternalLibrariesRemoval::AutoRemove);
        assert!(!show_all_external_libraries(&given));
    }
    let set = settings(ExternalLibrariesRemoval::Manual, true);
    assert_eq!(external_libraries_removal(&set), ExternalLibrariesRemoval::Manual);
    assert!(show_all_external_libraries(&set));
    assert!(!show_all_external_libraries(&settings(ExternalLibrariesRemoval::Manual, false)));
    assert_eq!(ExternalLibrariesRemoval::default(), ExternalLibrariesRemoval::AutoRemove);
}

#[test]
fn new_store_schedules_only_with_setting_and_visible_worktrees() {
    let mut cx = showing_all();
    ExternalLibrariesStore::new(&mut cx);
    assert_eq!(take(&mut cx), vec![]);

    cx.app.visible_worktree_roots.push(absolute(&["project"]));
    ExternalLibrariesStore::new(&mut cx);
    assert_eq!(take(&mut cx), vec![Effect::StartEnumerationTimer { task: 0, delay_ms: 500 }]);

    let mut off = auto();
    off.app.visible_worktree_roots.push(absolute(&["project"]));
    ExternalLibrariesStore::new(&mut off);
    assert_eq!(take(&mut off), vec![]);
}

#[test]
fn navigation_surfaces_the_package_and_tracks_the_buffer() {
    let mut cx = with_worktrees(auto());
    let mut store = ExternalLibrariesStore::new(&mut cx);
    let root = absolute(&["lib"]);
    let file = absolute(&["lib", "src", "x.rs"]);

    store.handle_buffer_store_event(&buffer(1, INVISIBLE, &file), &in_lib, &mut cx);
    assert_eq!(take(&mut cx), vec![create(&root, LibraryOrigin::Navigated, Some(1))]);
    assert!(store.is_library_expected_for(&file, &cx.app));
    assert_eq!(store.worktrees(), vec![]);

    // A second buffer asks for nothing while the worktree is being created,
    // and waits for it.
    store.handle_buffer_store_event(&buffer(2, INVISIBLE, &file), &in_lib, &mut cx);
    assert_eq!(take(&mut cx), vec![]);

    let created: Result<u64, ()> = Ok(7);
    store.library_worktree_created(
        root.duplicate(),
        LibraryOrigin::Navigated,
        Some(1),
        created,
        &mut cx,
    );
    assert_eq!(take(&mut cx), changed());
    assert_eq!(store.worktrees(), vec![7]);
    assert!(store.is_external_library(7));
    assert!(!store.is_external_library(8));
    assert!(!store.is_enumerated_for_test(&root));

    // Later navigations reuse the worktree.
    store.handle_buffer_store_event(&buffer(3, INVISIBLE, &file), &in_lib, &mut cx);
    assert_eq!(take(&mut cx), vec![]);

    // All three are tracked: the library leaves with the last of them.
    for dropped in [1, 3] {
        let event = BufferStoreEvent::BufferDropped(dropped);
        store.handle_buffer_store_event(&event, &in_lib, &mut cx);
        assert_eq!(take(&mut cx), vec![]);
        assert_eq!(store.worktrees(), vec![7]);
    }
    store.handle_buffer_store_event(&BufferStoreEvent::BufferDropped(2), &in_lib, &mut cx);
    assert_eq!(take(&mut cx), changed());
    assert_eq!(store.worktrees(), vec![]);
}

#[test]
fn buffers_dropped_while_pending_are_not_tracked() {
    let mut cx = with_worktrees(auto());
    let mut store = ExternalLibrariesStore::new(&mut cx);
    let root = absolute(&["lib"]);
    let file = absolute(&["lib", "x.rs"]);
    let created: Result<u64, ()> = Ok(7);

    // The buffer that surfaces the library is dropped, another one stays.
    store.handle_buffer_store_event(&buffer(1, INVISIBLE, &file), &in_lib, &mut cx);
    store.handle_buffer_store_event(&buffer(2, INVISIBLE, &file), &in_lib, &mut cx);
    take(&mut cx);
    store.handle_buffer_store_event(&BufferStoreEvent::BufferDropped(1), &in_lib, &mut cx);
    assert_eq!(take(&mut cx), vec![]);
    assert!(store.is_library_expected_for(&file, &cx.app));
    store.library_worktree_created(
        root.duplicate(),
        LibraryOrigin::Navigated,
        Some(1),
        created,
        &mut cx,
    );
    assert_eq!(take(&mut cx), changed());
    assert_eq!(store.worktrees(), vec![7]);
    // Only the other one is tracked, so the library leaves with it.
    store.handle_buffer_store_event(&BufferStoreEvent::BufferDropped(1), &in_lib, &mut cx);
    assert_eq!(take(&mut cx), vec![]);
    store.handle_buffer_store_event(&BufferStoreEvent::BufferDropped(2), &in_lib, &mut cx);
    assert_eq!(take(&mut cx), changed());
    assert_eq!(store.worktrees(), vec![]);
}

#[test]
fn libraries_without_buffers_left_are_still_surfaced() {
    let mut cx = with_worktrees(auto());
    let mut store = ExternalLibrariesStore::new(&mut cx);
    let root = absolute(&["lib"]);
    let file = absolute(&["lib", "x.rs"]);
    store.handle_buffer_store_event(&buffer(1, INVISIBLE, &file), &in_lib, &mut cx);
    store.handle_buffer_store_event(&BufferStoreEvent::BufferDropped(1), &in_lib, &mut cx);
    take(&mut cx);
    store.finish_library(root.duplicate(), 7, LibraryOrigin::Navigated, Some(1), &mut cx);
    assert_eq!(take(&mut cx), changed());
    assert_eq!(store.worktrees(), vec![7]);
    store.handle_buffer_store_event(&BufferStoreEvent::BufferDropped(1), &in_lib, &mut cx);
    assert_eq!(take(&mut cx), vec![]);
    assert_eq!(store.worktrees(), vec![7]);
    // The next buffer takes the library with it.
    store.handle_buffer_store_event(&buffer(2, INVISIBLE, &file), &in_lib, &mut cx);
    store.handle_buffer_store_event(&BufferStoreEvent::BufferDropped(2), &in_lib, &mut cx);
    assert_eq!(take(&mut cx), changed());
    assert_eq!(store.worktrees(), vec![]);
}

#[test]
fn enumerated_requests_that_buffers_join_survive_disabling() {
    for disable_first in [false, true] {
        let mut cx = with_worktrees(showing_all());
        let mut store = ExternalLibrariesStore::new(&mut cx);
        let root = absolute(&["lib"]);
        let file = absolute(&["lib", "x.rs"]);
        store.surface_library(root.duplicate(), LibraryOrigin::Enumerated, None, &mut cx);
        take(&mut cx);
        if disable_first {
            cx.app.settings = None;
            store.handle_settings_changed(&mut cx);
        }
        store.handle_buffer_store_event(&buffer(1, INVISIBLE, &file), &in_lib, &mut cx);
        cx.app.settings = None;
        store.handle_settings_changed(&mut cx);
        assert_eq!(take(&mut cx), vec![]);

        store.finish_library(root.duplicate(), 7, LibraryOrigin::Enumerated, None, &mut cx);
        assert_eq!(take(&mut cx), changed());
        assert_eq!(store.worktrees(), vec![7]);
        assert!(!store.is_enumerated_for_test(&root));
        store.handle_buffer_store_event(&BufferStoreEvent::BufferDropped(1), &in_lib, &mut cx);
        assert_eq!(take(&mut cx), changed());
        assert_eq!(store.worktrees(), vec![]);
    }
}

#[test]
fn enumerated_requests_that_buffers_left_again_are_ignored() {
    let mut cx = with_worktrees(showing_all());
    let mut store = ExternalLibrariesStore::new(&mut cx);
    let root = absolute(&["lib"]);
    let file = absolute(&["lib", "x.rs"]);
    store.surface_library(root.duplicate(), LibraryOrigin::Enumerated, None, &mut cx);
    store.handle_buffer_store_event(&buffer(1, INVISIBLE, &file), &in_lib, &mut cx);
    store.handle_buffer_store_event(&BufferStoreEvent::BufferDropped(1), &in_lib, &mut cx);
    cx.app.settings = None;
    store.handle_settings_changed(&mut cx);
    take(&mut cx);
    store.finish_library(root.duplicate(), 7, LibraryOrigin::Enumerated, None, &mut cx);
    assert_eq!(take(&mut cx), vec![]);
    assert_eq!(store.worktrees(), vec![]);
    assert!(!store.is_library_expected_for(&file, &cx.app));
}

#[test]
fn finishing_a_surfaced_library_again_keeps_its_buffers() {
    let mut cx = auto();
    let mut store = ExternalLibrariesStore::new(&mut cx);
    let root = absolute(&["lib"]);
    store.register_library_worktree_for_test(root.duplicate(), 5, &mut cx);
    store.track_buffer_for_test(&root, 1);
    take(&mut cx);
    store.finish_library(root.duplicate(), 6, LibraryOrigin::Navigated, Some(2), &mut cx);
    assert_eq!(take(&mut cx), changed());
    assert_eq!(store.worktrees(), vec![6]);
    store.simulate_buffer_dropped_for_test(1, &mut cx);
    assert_eq!(take(&mut cx), vec![]);
    store.simulate_buffer_dropped_for_test(2, &mut cx);
    assert_eq!(take(&mut cx), changed());
    assert_eq!(store.worktrees(), vec![]);
}

#[test]
fn completions_of_pending_libraries_track_their_buffer() {
    let mut cx = auto();
    let mut store = ExternalLibrariesStore::new(&mut cx);
    let root = absolute(&["lib"]);
    store.mark_library_pending_for_test(root.duplicate());
    store.finish_library(root.duplicate(), 7, LibraryOrigin::Navigated, Some(1), &mut cx);
    assert_eq!(take(&mut cx), changed());
    assert_eq!(store.worktrees(), vec![7]);
    store.simulate_buffer_dropped_for_test(1, &mut cx);
    assert_eq!(take(&mut cx), changed());
    assert_eq!(store.worktrees(), vec![]);
}

#[test]
fn completions_of_surfaced_libraries_track_their_buffer() {
    let mut cx = auto();
    let mut store = ExternalLibrariesStore::new(&mut cx);
    let root = absolute(&["lib"]);
    let file = absolute(&["lib", "x.rs"]);
    store.register_library_worktree_for_test(root.duplicate(), 5, &mut cx);
    store.mark_library_pending_for_test(root.duplicate());
    take(&mut cx);
    store.finish_library(root.duplicate(), 6, LibraryOrigin::Navigated, Some(1), &mut cx);
    assert_eq!(take(&mut cx), changed());
    assert_eq!(store.worktrees(), vec![6]);
    assert!(!store.is_library_expected_for(&file, &cx.app));
    store.simulate_buffer_dropped_for_test(1, &mut cx);
    assert_eq!(take(&mut cx), changed());
    assert_eq!(store.worktrees(), vec![]);
}

#[test]
fn completions_track_buffers_that_are_opened_again() {
    let mut cx = with_worktrees(auto());
    let mut store = ExternalLibrariesStore::new(&mut cx);
    let root = absolute(&["lib"]);
    let file = absolute(&["lib", "x.rs"]);
    store.handle_buffer_store_event(&buffer(1, INVISIBLE, &file), &in_lib, &mut cx);
    store.handle_buffer_store_event(&BufferStoreEvent::BufferDropped(1), &in_lib, &mut cx);
    store.handle_buffer_store_event(&buffer(1, INVISIBLE, &file), &in_lib, &mut cx);
    take(&mut cx);
    store.finish_library(root.duplicate(), 7, LibraryOrigin::Navigated, Some(1), &mut cx);
    take(&mut cx);
    store.simulate_buffer_dropped_for_test(1, &mut cx);
    assert_eq!(take(&mut cx), changed());
    assert_eq!(store.worktrees(), vec![]);
}

#[test]
fn late_enumerated_worktrees_are_ignored_whatever_their_buffer() {
    let root = absolute(&["dep"]);
    let file = absolute(&["dep", "x.rs"]);

    // Not pending.
    let mut cx = auto();
    let mut store = ExternalLibrariesStore::new(&mut cx);
    store.finish_library(root.duplicate(), 7, LibraryOrigin::Enumerated, Some(1), &mut cx);
    assert_eq!(take(&mut cx), vec![]);
    assert_eq!(store.worktrees(), vec![]);

    // Asked for with a buffer.
    store.surface_library(root.duplicate(), LibraryOrigin::Enumerated, Some(1), &mut cx);
    assert_eq!(take(&mut cx), vec![create(&root, LibraryOrigin::Enumerated, Some(1))]);
    assert!(store.is_library_expected_for(&file, &cx.app));
    store.finish_library(root.duplicate(), 7, LibraryOrigin::Enumerated, Some(1), &mut cx);
    assert_eq!(take(&mut cx), vec![]);
    assert_eq!(store.worktrees(), vec![]);
    assert!(!store.is_library_expected_for(&file, &cx.app));

    // Surfaced by then: the entry stays as it is.
    store.register_library_worktree_for_test(root.duplicate(), 5, &mut cx);
    take(&mut cx);
    store.finish_library(root.duplicate(), 7, LibraryOrigin::Enumerated, Some(1), &mut cx);
    assert_eq!(take(&mut cx), vec![]);
    assert_eq!(store.worktrees(), vec![5]);
    store.simulate_buffer_dropped_for_test(1, &mut cx);
    assert_eq!(take(&mut cx), vec![]);
    assert_eq!(store.worktrees(), vec![5]);
}

#[test]
fn enumerated_worktrees_in_time_are_surfaced() {
    let mut cx = with_worktrees(showing_all());
    let mut store = ExternalLibrariesStore::new(&mut cx);
    let root = absolute(&["dep"]);
    store.surface_library(root.duplicate(), LibraryOrigin::Enumerated, Some(1), &mut cx);
    take(&mut cx);
    store.finish_library(root.duplicate(), 7, LibraryOrigin::Enumerated, Some(1), &mut cx);
    assert_eq!(take(&mut cx), changed());
    assert_eq!(store.worktrees(), vec![7]);
    assert!(store.is_enumerated_for_test(&root));
}

#[test]
fn marking_a_pending_library_again_keeps_its_buffers() {
    let mut cx = with_worktrees(auto());
    let mut store = ExternalLibrariesStore::new(&mut cx);
    let root = absolute(&["lib"]);
    let file = absolute(&["lib", "x.rs"]);
    store.mark_library_pending_for_test(root.duplicate());
    store.handle_buffer_store_event(&buffer(1, INVISIBLE, &file), &in_lib, &mut cx);
    assert_eq!(take(&mut cx), vec![]);
    store.mark_library_pending_for_test(root.duplicate());
    store.finish_library(root.duplicate(), 7, LibraryOrigin::Navigated, None, &mut cx);
    take(&mut cx);
    store.simulate_buffer_dropped_for_test(1, &mut cx);
    assert_eq!(take(&mut cx), changed());
    assert_eq!(store.worktrees(), vec![]);
}

#[test]
fn only_external_local_files_are_considered() {
    let mut cx = with_worktrees(auto());
    let mut store = ExternalLibrariesStore::new(&mut cx);
    let file = absolute(&["lib", "x.rs"]);
    let events = vec![
        BufferStoreEvent::BufferAdded(BufferState { remote_id: 1, file: None }),
        BufferStoreEvent::BufferAdded(BufferState {
            remote_id: 1,
            file: Some(FileState { worktree_id: INVISIBLE, local_abs_path: None }),
        }),
        buffer(1, VISIBLE, &file),
        buffer(1, 1234, &file),
        buffer(1, INVISIBLE, &absolute(&["elsewhere", "x.rs"])),
        BufferStoreEvent::Other,
    ];
    for event in &events {
        store.handle_buffer_store_event(event, &in_lib, &mut cx);
        assert_eq!(take(&mut cx), vec![]);
        assert!(!store.is_library_expected_for(&file, &cx.app));
    }
}

#[test]
fn failed_creation_is_forgotten_and_announced() {
    let mut cx = auto();
    let mut store = ExternalLibrariesStore::new(&mut cx);
    let root = absolute(&["lib"]);
    store.surface_library(root.duplicate(), LibraryOrigin::Navigated, Some(1), &mut cx);
    assert_eq!(take(&mut cx).len(), 1);
    let failed: Result<u64, &str> = Err("no such directory");
    store.library_worktree_created(
        root.duplicate(),
        LibraryOrigin::Navigated,
        Some(1),
        failed,
        &mut cx,
    );
    assert_eq!(take(&mut cx), changed());
    assert!(!store.is_library_expected_for(&absolute(&["lib", "x"]), &cx.app));
    // It can be surfaced again.
    store.surface_library(root.duplicate(), LibraryOrigin::Navigated, Some(2), &mut cx);
    assert_eq!(take(&mut cx), vec![create(&root, LibraryOrigin::Navigated, Some(2))]);
}

#[test]
fn worktrees_come_in_path_order() {
    let mut cx = auto();
    let mut store = ExternalLibrariesStore::new(&mut cx);
    store.register_library_worktree_for_test(absolute(&["c"]), 1, &mut cx);
    store.register_library_worktree_for_test(absolute(&["a", "b"]), 2, &mut cx);
    store.register_library_worktree_for_test(absolute(&["a"]), 3, &mut cx);
    assert_eq!(store.worktrees(), vec![3, 2, 1]);
    assert_eq!(take(&mut cx).len(), 6);
}

#[test]
fn registering_replaces_and_clears_pending() {
    let mut cx = auto();
    let mut store = ExternalLibrariesStore::new(&mut cx);
    let root = absolute(&["lib"]);
    store.mark_library_pending_for_test(root.duplicate());
    assert!(store.is_library_expected_for(&absolute(&["lib", "x"]), &cx.app));
    assert!(!store.is_library_expected_for(&root, &cx.app));
    store.register_library_worktree_for_test(root.duplicate(), 5, &mut cx);
    assert!(!store.is_library_expected_for(&absolute(&["lib", "x"]), &cx.app));
    cx.app.worktree_roots.insert(5, root.duplicate());
    assert!(store.is_library_expected_for(&absolute(&["lib", "x"]), &cx.app));
    assert!(!store.is_library_expected_for(&root, &cx.app));
    // A worktree whose root moved is asked where it is now.
    cx.app.worktree_roots.insert(5, absolute(&["moved"]));
    assert!(store.is_library_expected_for(&absolute(&["moved", "x"]), &cx.app));
    assert!(!store.is_library_expected_for(&absolute(&["lib", "x"]), &cx.app));

    store.track_buffer_for_test(&root, 1);
    store.register_enumerated_library_worktree_for_test(root.duplicate(), 6, &mut cx);
    assert_eq!(store.worktrees(), vec![6]);
    assert!(store.is_enumerated_for_test(&root));
}

#[test]
fn manual_mode_keeps_libraries_without_buffers() {
    let mut cx = context(settings(ExternalLibrariesRemoval::Manual, false));
    let mut store = ExternalLibrariesStore::new(&mut cx);
    let root = absolute(&["lib"]);
    store.register_library_worktree_for_test(root.duplicate(), 5, &mut cx);
    store.track_buffer_for_test(&root, 1);
    take(&mut cx);
    store.simulate_buffer_dropped_for_test(1, &mut cx);
    assert_eq!(take(&mut cx), vec![]);
    assert_eq!(store.worktrees(), vec![5]);
    // The buffer is no longer tracked, so dropping it again removes nothing.
    cx.app.settings = None;
    store.simulate_buffer_dropped_for_test(1, &mut cx);
    assert_eq!(store.worktrees(), vec![5]);
}

#[test]
fn dropping_untracked_buffers_changes_nothing() {
    let mut cx = auto();
    let mut store = ExternalLibrariesStore::new(&mut cx);
    let root = absolute(&["lib"]);
    store.register_library_worktree_for_test(root.duplicate(), 5, &mut cx);
    store.track_buffer_for_test(&absolute(&["other"]), 1);
    take(&mut cx);
    store.simulate_buffer_dropped_for_test(1, &mut cx);
    assert_eq!(take(&mut cx), vec![]);
    assert_eq!(store.worktrees(), vec![5]);
}

#[test]
fn one_drop_can_remove_several_libraries() {
    let mut cx = auto();
    let mut store = ExternalLibrariesStore::new(&mut cx);
    for (i, text) in ["a", "b", "c", "d"].iter().enumerate() {
        store.register_library_worktree_for_test(absolute(&[text]), i as u64, &mut cx);
        store.track_buffer_for_test(&absolute(&[text]), 1);
    }
    store.track_buffer_for_test(&absolute(&["c"]), 2);
    take(&mut cx);
    store.simulate_buffer_dropped_for_test(1, &mut cx);
    assert_eq!(take(&mut cx), changed());
    assert_eq!(store.worktrees(), vec![2]);
}

#[test]
fn enumerated_libraries_survive_dropped_buffers() {
    let mut cx = showing_all();
    let mut store = ExternalLibrariesStore::new(&mut cx);
    let root = absolute(&["dep"]);
    store.register_enumerated_library_worktree_for_test(root.duplicate(), 5, &mut cx);
    store.track_buffer_for_test(&root, 1);
    take(&mut cx);
    store.simulate_buffer_dropped_for_test(1, &mut cx);
    assert_eq!(take(&mut cx), vec![]);
    assert_eq!(store.worktrees(), vec![5]);
}

#[test]
fn origin_of_a_finished_library_is_kept() {
    let mut cx = showing_all();
    let mut store = ExternalLibrariesStore::new(&mut cx);
    let root = absolute(&["dep"]);
    store.register_enumerated_library_worktree_for_test(root.duplicate(), 5, &mut cx);
    store.finish_library(root.duplicate(), 6, LibraryOrigin::Navigated, Some(1), &mut cx);
    assert!(store.is_enumerated_for_test(&root));
    assert_eq!(store.worktrees(), vec![6]);
}

#[test]
fn manual_removal_dismisses_enumerated_libraries_only() {
    let mut cx = showing_all();
    let mut store = ExternalLibrariesStore::new(&mut cx);
    let dep = absolute(&["dep"]);
    let lib = absolute(&["lib"]);
    store.register_enumerated_library_worktree_for_test(dep.duplicate(), 5, &mut cx);
    store.register_library_worktree_for_test(lib.duplicate(), 6, &mut cx);
    store.track_buffer_for_test(&lib, 1);
    take(&mut cx);

    store.remove_library(99, &mut cx);
    assert_eq!(take(&mut cx), vec![]);
    store.remove_library(5, &mut cx);
    assert_eq!(take(&mut cx), changed());
    store.remove_library(6, &mut cx);
    assert_eq!(take(&mut cx), changed());
    assert_eq!(store.worktrees(), vec![]);
    assert!(store.is_dismissed_for_test(&dep));
    assert!(!store.is_dismissed_for_test(&lib));

    // Re-enumeration skips the dismissed one.
    store.surface_dependencies(&vec![dep.duplicate(), lib.duplicate()], &mut cx);
    assert_eq!(take(&mut cx), vec![create(&lib, LibraryOrigin::Enumerated, None)]);
    // Navigating into it surfaces it all the same.
    store.surface_library(dep.duplicate(), LibraryOrigin::Navigated, Some(3), &mut cx);
    assert_eq!(take(&mut cx), vec![create(&dep, LibraryOrigin::Navigated, Some(3))]);
}

#[test]
fn removal_takes_one_library_of_a_shared_worktree() {
    let mut cx = auto();
    let mut store = ExternalLibrariesStore::new(&mut cx);
    store.register_library_worktree_for_test(absolute(&["b"]), 5, &mut cx);
    store.register_library_worktree_for_test(absolute(&["a"]), 5, &mut cx);
    store.remove_library(5, &mut cx);
    assert_eq!(store.worktrees(), vec![5]);
    store.remove_library(5, &mut cx);
    assert_eq!(store.worktrees(), vec![]);
}

#[test]
fn disabling_removes_enumerated_libraries_and_forgets_dismissals() {
    let mut cx = showing_all();
    let mut store = ExternalLibrariesStore::new(&mut cx);
    let gone = absolute(&["gone"]);
    store.register_enumerated_library_worktree_for_test(absolute(&["dep"]), 5, &mut cx);
    store.register_enumerated_library_worktree_for_test(gone.duplicate(), 6, &mut cx);
    store.register_library_worktree_for_test(absolute(&["lib"]), 7, &mut cx);
    store.remove_library(6, &mut cx);
    take(&mut cx);

    // Nothing happens while the setting stays as it is.
    store.handle_settings_changed(&mut cx);
    assert_eq!(take(&mut cx), vec![]);
    assert_eq!(store.worktrees(), vec![5, 7]);

    cx.app.settings = settings(ExternalLibrariesRemoval::AutoRemove, false);
    store.handle_settings_changed(&mut cx);
    assert_eq!(take(&mut cx), changed());
    assert_eq!(store.worktrees(), vec![7]);
    assert!(!store.is_dismissed_for_test(&gone));

    cx.app.settings = settings(ExternalLibrariesRemoval::AutoRemove, true);
    store.handle_settings_changed(&mut cx);
    assert_eq!(take(&mut cx), vec![Effect::StartEnumerationTimer { task: 0, delay_ms: 500 }]);
    store.surface_dependencies(&vec![gone.duplicate()], &mut cx);
    assert_eq!(take(&mut cx), vec![create(&gone, LibraryOrigin::Enumerated, None)]);
}

#[test]
fn disabling_without_enumerated_libraries_announces_nothing() {
    let mut cx = showing_all();
    let mut store = ExternalLibrariesStore::new(&mut cx);
    store.register_library_worktree_for_test(absolute(&["lib"]), 7, &mut cx);
    take(&mut cx);
    cx.app.settings = None;
    store.handle_settings_changed(&mut cx);
    assert_eq!(take(&mut cx), vec![]);
}

#[test]
fn late_enumerated_worktrees_are_ignored() {
    let mut cx = auto();
    let mut store = ExternalLibrariesStore::new(&mut cx);
    let root = absolute(&["dep"]);
    store.mark_library_pending_for_test(root.duplicate());
    store.finish_library(root.duplicate(), 5, LibraryOrigin::Enumerated, None, &mut cx);
    assert_eq!(take(&mut cx), vec![]);
    assert_eq!(store.worktrees(), vec![]);
    assert!(!store.is_library_expected_for(&absolute(&["dep", "x"]), &cx.app));
}

#[test]
fn only_the_last_timer_enumerates() {
    let mut cx = showing_all();
    cx.app.visible_worktree_roots =
        vec![absolute(&["b"]), absolute(&["a"]), absolute(&["b"]), absolute(&["a", "c"])];
    let mut store = ExternalLibrariesStore::new(&mut cx);
    store.handle_worktree_store_event(WorktreeStoreEvent::WorktreeAdded { visible: true }, &mut cx);
    assert_eq!(
        take(&mut cx),
        vec![
            Effect::StartEnumerationTimer { task: 0, delay_ms: 500 },
            Effect::StartEnumerationTimer { task: 1, delay_ms: 500 },
        ]
    );
    store.enumeration_timer_elapsed(0, &mut cx);
    assert_eq!(take(&mut cx), vec![]);
    store.enumeration_timer_elapsed(1, &mut cx);
    let roots = vec![absolute(&["a"]), absolute(&["a", "c"]), absolute(&["b"])];
    assert_eq!(take(&mut cx), vec![Effect::ListDependencies { roots, providers: 1 }]);
}

#[test]
fn a_burst_of_worktrees_is_enumerated_once() {
    let mut cx = showing_all();
    let mut store = ExternalLibrariesStore::new(&mut cx);
    for _ in 0..4 {
        let added = WorktreeStoreEvent::WorktreeAdded { visible: true };
        store.handle_worktree_store_event(added, &mut cx);
    }
    cx.app.visible_worktree_roots = vec![absolute(&["a"])];
    let started = take(&mut cx);
    assert_eq!(started.len(), 4);
    for effect in &started {
        match effect {
            Effect::StartEnumerationTimer { task, delay_ms: 500 } => {
                store.enumeration_timer_elapsed(*task, &mut cx);
            }
            _ => panic!("not a timer"),
        }
    }
    let roots = vec![absolute(&["a"])];
    assert_eq!(take(&mut cx), vec![Effect::ListDependencies { roots, providers: 1 }]);
    assert_eq!(store.worktrees(), vec![]);
}

#[test]
fn invisible_worktrees_schedule_nothing() {
    let mut cx = showing_all();
    let mut store = ExternalLibrariesStore::new(&mut cx);
    store.handle_worktree_store_event(WorktreeStoreEvent::WorktreeAdded { visible: false }, &mut cx);
    store.handle_worktree_store_event(WorktreeStoreEvent::Other, &mut cx);
    cx.app.settings = None;
    store.handle_worktree_store_event(WorktreeStoreEvent::WorktreeAdded { visible: true }, &mut cx);
    assert_eq!(take(&mut cx), vec![]);
}

#[test]
fn enumeration_needs_the_setting_and_a_provider() {
    let mut cx = showing_all();
    let mut store = ExternalLibrariesStore::new(&mut cx);
    cx.app.dependency_providers = 0;
    store.enumerate_all_libraries(&mut cx);
    assert_eq!(take(&mut cx), vec![]);
    cx.app.dependency_providers = 2;
    store.enumerate_all_libraries(&mut cx);
    assert_eq!(take(&mut cx), vec![Effect::ListDependencies { roots: vec![], providers: 2 }]);
    cx.app.settings = None;
    store.enumerate_all_libraries(&mut cx);
    assert_eq!(take(&mut cx), vec![]);
}

#[test]
fn dependencies_are_surfaced_once() {
    let mut cx = showing_all();
    let mut store = ExternalLibrariesStore::new(&mut cx);
    store.register_library_worktree_for_test(absolute(&["known"]), 1, &mut cx);
    store.mark_library_pending_for_test(absolute(&["pending"]));
    take(&mut cx);
    let found = vec![
        absolute(&["z"]),
        absolute(&["known"]),
        absolute(&["a"]),
        absolute(&["pending"]),
        absolute(&["z"]),
    ];
    store.surface_dependencies(&found, &mut cx);
    assert_eq!(
        take(&mut cx),
        vec![
            create(&absolute(&["z"]), LibraryOrigin::Enumerated, None),
            create(&absolute(&["a"]), LibraryOrigin::Enumerated, None),
        ]
    );
    store.surface_dependencies(&found, &mut cx);
    assert_eq!(take(&mut cx), vec![]);
}

#[test]
fn runs_ask_every_provider_about_every_root() {
    let mut run = EnumerationRun::new(vec![absolute(&["a"]), absolute(&["b"])], 2);
    let mut asked = vec![];
    while let Some((root, provider)) = run.next_listing() {
        asked.push((root, provider));
        if (root, provider) == (0, 1) {
            let failed: Result<Vec<Dependency>, &str> = Err("cannot list");
            run.record_listing(failed);
        } else {
            let text = format!("dep{}{}", root, provider);
            let listed: Result<Vec<Dependency>, &str> =
                Ok(vec![Dependency { source_path: absolute(&[&text]) }]);
            run.record_listing(listed);
        }
    }
    assert_eq!(asked, vec![(0, 0), (0, 1), (1, 0), (1, 1)]);
    assert_eq!(run.root(1), &absolute(&["b"]));
    assert_eq!(
        run.into_dependencies(),
        vec![absolute(&["dep00"]), absolute(&["dep10"]), absolute(&["dep11"])]
    );
}

#[test]
fn empty_runs_ask_nobody() {
    assert_eq!(EnumerationRun::new(vec![], 3).next_listing(), None);
    assert_eq!(EnumerationRun::new(vec![absolute(&["a"])], 0).next_listing(), None);
}

fn source(is_visible: bool, is_single_file: bool, path: Option<ComponentPath>) -> SourceWorktree {
    SourceWorktree { is_visible, is_single_file, entry_path: path, path_style: PathStyle::Posix }
}

/// The names of `rel`, joined by slashes.
fn slashed(rel: &ComponentPath) -> String {
    let mut text = String::new();
    for component in &rel.components {
        if let PathComponent::Normal(bytes) = component {
            if !text.is_empty() {
                text.push('/');
            }
            text.push_str(std::str::from_utf8(bytes).unwrap());
        }
    }
    text
}

#[test]
fn entries_translate_into_the_first_library_that_has_them() {
    let mut cx = auto();
    let mut store = ExternalLibrariesStore::new(&mut cx);
    store.register_library_worktree_for_test(absolute(&["lib", "nested"]), 2, &mut cx);
    store.register_library_worktree_for_test(absolute(&["lib"]), 1, &mut cx);
    store.register_library_worktree_for_test(absolute(&["other"]), 3, &mut cx);
    cx.app.worktree_roots.insert(1, absolute(&["lib"]));
    cx.app.worktree_roots.insert(2, absolute(&["lib", "nested"]));
    cx.app.worktree_roots.insert(3, absolute(&["other"]));
    let file = absolute(&["lib", "nested", "x.rs"]);
    let resolve = |outer_has_it: bool, writable: bool| {
        store.resolve_library_entry(
            40,
            &cx.app,
            &|entry: u64| {
                assert_eq!(entry, 40);
                Some(source(false, true, Some(file.duplicate())))
            },
            &|rel: &ComponentPath, style: PathStyle| {
                assert_eq!(style, PathStyle::Posix);
                if writable { Some(slashed(rel)) } else { None }
            },
            &|worktree: u64, rel: &String| match (worktree, rel.as_str()) {
                (1, "nested/x.rs") if outer_has_it => Some(100),
                (2, "x.rs") => Some(200),
                _ => None,
            },
        )
    };
    assert_eq!(resolve(true, true), Some(100));
    assert_eq!(resolve(false, true), Some(200));
    assert_eq!(resolve(true, false), None);
}

#[test]
fn entries_that_need_no_translation_have_none() {
    let mut cx = auto();
    let mut store = ExternalLibrariesStore::new(&mut cx);
    store.register_library_worktree_for_test(absolute(&["lib"]), 1, &mut cx);
    cx.app.worktree_roots.insert(1, absolute(&["lib"]));
    let file = absolute(&["lib", "x.rs"]);
    let outside = absolute(&["elsewhere", "x.rs"]);
    let cases: Vec<(Box<dyn Fn() -> Option<SourceWorktree>>, Option<u64>)> = vec![
        (Box::new(|| None), None),
        (Box::new(|| Some(source(true, true, Some(absolute(&["lib", "x.rs"]))))), None),
        (Box::new(|| Some(source(false, false, Some(absolute(&["lib", "x.rs"]))))), None),
        (Box::new(|| Some(source(false, true, None))), None),
        (Box::new(move || Some(source(false, true, Some(outside.duplicate())))), None),
        (Box::new(move || Some(source(false, true, Some(file.duplicate())))), Some(9)),
    ];
    for (given, expected) in &cases {
        let found = store.resolve_library_entry(
            1,
            &cx.app,
            &|_entry: u64| given(),
            &|rel: &ComponentPath, _style: PathStyle| Some(slashed(rel)),
            &|_worktree: u64, _rel: &String| Some(9),
        );
        assert_eq!(found, *expected);
    }
}
