use external_libraries::library_root::{library_manifests, resolve_library_root, LIBRARY_ROOT_MAX_DEPTH};
use external_libraries::path::{ComponentPath, PathComponent};

fn name(text: &str) -> PathComponent {
    PathComponent::Normal(text.as_bytes().to_vec())
}

fn absolute(names: &[&str]) -> ComponentPath {
    let mut components = vec![PathComponent::RootDir];
    for text in names {
        components.push(name(text));
    }
    ComponentPath::from_components(components)
}

/// Resolves `path` on a disk that holds the given files.
fn resolve(path: &ComponentPath, files: &[ComponentPath]) -> Option<ComponentPath> {
    resolve_library_root(path, &|asked: &ComponentPath| files.contains(asked))
}

#[test]
fn resolve_library_root_finds_nearest_manifest() {
    let tmp = absolute(&["tmp"]);
    let crate_dir = tmp.join(&b"ext_lib_test_crate".to_vec());
    let src_dir = crate_dir.join(&b"src".to_vec());
    let file = src_dir.join(&b"lib.rs".to_vec());
    let files = vec![crate_dir.join(&b"Cargo.toml".to_vec()), file.duplicate()];

    let root = resolve(&file, &files).unwrap();
    assert_eq!(root, crate_dir);
}

#[test]
fn resolve_library_root_returns_none_without_manifest() {
    let tmp = absolute(&["tmp"]);
    let file = tmp
        .join(&b"ext_lib_none_test".to_vec())
        .join(&b"a".to_vec())
        .join(&b"b.rs".to_vec());
    assert_eq!(resolve(&file, &[]), None);
}

#[test]
fn every_manifest_marks_a_root() {
    let expected = ["Cargo.toml", "package.json", "pyproject.toml", "go.mod"];
    let manifests = library_manifests();
    assert_eq!(manifests.len(), 4);
    for (i, manifest) in expected.iter().enumerate() {
        assert_eq!(manifests[i], manifest.as_bytes().to_vec());
        let root = absolute(&["pkg"]);
        let files = vec![root.join(&manifest.as_bytes().to_vec())];
        assert_eq!(resolve(&absolute(&["pkg", "src", "x"]), &files), Some(root));
    }
}

#[test]
fn other_files_mark_no_root() {
    let files = vec![absolute(&["pkg", "Makefile"]), absolute(&["pkg", "src", "Cargo.toml", "x"])];
    assert_eq!(resolve(&absolute(&["pkg", "src", "x"]), &files), None);
}

#[test]
fn inner_package_wins_over_outer() {
    let files = vec![absolute(&["a", "Cargo.toml"]), absolute(&["a", "b", "package.json"])];
    assert_eq!(resolve(&absolute(&["a", "b", "c", "x.js"]), &files), Some(absolute(&["a", "b"])));
    assert_eq!(resolve(&absolute(&["a", "c", "x.rs"]), &files), Some(absolute(&["a"])));
}

#[test]
fn search_stops_at_the_depth_limit() {
    assert_eq!(LIBRARY_ROOT_MAX_DEPTH, 6);
    let files = vec![absolute(&["p", "Cargo.toml"])];
    // The sixth directory that is searched is /p.
    let reachable = absolute(&["p", "1", "2", "3", "4", "5", "x.rs"]);
    assert_eq!(resolve(&reachable, &files), Some(absolute(&["p"])));
    let too_deep = absolute(&["p", "1", "2", "3", "4", "5", "6", "x.rs"]);
    assert_eq!(resolve(&too_deep, &files), None);
}

#[test]
fn file_in_root_directory_searches_the_root() {
    let files = vec![absolute(&["go.mod"])];
    assert_eq!(resolve(&absolute(&["main.go"]), &files), Some(absolute(&[])));
    assert_eq!(resolve(&absolute(&[]), &files), None);
}

#[test]
fn relative_file_searches_the_empty_directory() {
    let file = ComponentPath::from_components(vec![name("x.rs")]);
    let manifest = ComponentPath::from_components(vec![name("Cargo.toml")]);
    let empty = ComponentPath::from_components(vec![]);
    assert_eq!(resolve(&file, &[manifest]), Some(empty));
}

#[test]
fn manifests_are_looked_for_nearest_first_and_in_order() {
    let asked = std::cell::RefCell::new(Vec::new());
    let file = absolute(&["a", "x.rs"]);
    let root = resolve_library_root(&file, &|path: &ComponentPath| {
        asked.borrow_mut().push(path.duplicate());
        *path == absolute(&["pyproject.toml"])
    });
    assert_eq!(root, Some(absolute(&[])));
    let expected = vec![
        absolute(&["a", "Cargo.toml"]),
        absolute(&["a", "package.json"]),
        absolute(&["a", "pyproject.toml"]),
        absolute(&["a", "go.mod"]),
        absolute(&["Cargo.toml"]),
        absolute(&["package.json"]),
        absolute(&["pyproject.toml"]),
    ];
    assert_eq!(asked.into_inner(), expected);
}
