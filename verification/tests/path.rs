use external_libraries::path::{ComponentPath, PathComponent};
use external_libraries::path_map::{sorted_without_duplicates, PathMap, PathSet};

fn absolute(names: &[&str]) -> ComponentPath {
    let mut components = vec![PathComponent::RootDir];
    for text in names {
        components.push(PathComponent::Normal(text.as_bytes().to_vec()));
    }
    ComponentPath::from_components(components)
}

#[test]
fn paths_compare_by_components() {
    let short = absolute(&["a"]);
    let long = absolute(&["a", "b"]);
    let dotted = absolute(&["a.b"]);
    assert!(short.less_than(&long));
    assert!(!long.less_than(&short));
    assert!(!short.less_than(&short));
    // As text "/a.b" would come before "/a/b".
    assert!(long.less_than(&dotted));
    assert!(long.equals(&absolute(&["a", "b"])));
    assert!(!long.equals(&short));
}

#[test]
fn component_kinds_compare_in_order() {
    let kinds = vec![
        PathComponent::Prefix(b"z".to_vec()),
        PathComponent::RootDir,
        PathComponent::CurDir,
        PathComponent::ParentDir,
        PathComponent::Normal(b"".to_vec()),
        PathComponent::Normal(b"a".to_vec()),
        PathComponent::Normal(b"aa".to_vec()),
        PathComponent::Normal(b"b".to_vec()),
    ];
    for i in 0..kinds.len() {
        for j in 0..kinds.len() {
            assert_eq!(kinds[i].less_than(&kinds[j]), i < j);
            assert_eq!(kinds[i].equals(&kinds[j]), i == j);
        }
    }
}

#[test]
fn strip_prefix_needs_whole_components() {
    let path = absolute(&["lib", "src", "x.rs"]);
    let rest = path.strip_prefix(&absolute(&["lib"])).unwrap();
    assert_eq!(
        rest.components,
        vec![PathComponent::Normal(b"src".to_vec()), PathComponent::Normal(b"x.rs".to_vec())]
    );
    assert_eq!(path.strip_prefix(&absolute(&["li"])), None);
    assert_eq!(path.strip_prefix(&path).unwrap().components.len(), 0);
    assert!(path.is_under(&absolute(&["lib"])));
    assert!(!path.is_under(&path));
    assert!(!path.is_under(&absolute(&["other"])));
}

#[test]
fn roots_have_no_parent() {
    assert_eq!(absolute(&[]).parent(), None);
    assert_eq!(absolute(&["a"]).parent(), Some(absolute(&[])));
    let prefix = ComponentPath::from_components(vec![PathComponent::Prefix(b"C:".to_vec())]);
    assert_eq!(prefix.parent(), None);
    assert_eq!(ComponentPath::from_components(vec![]).parent(), None);
    let up = ComponentPath::from_components(vec![PathComponent::ParentDir]);
    assert_eq!(up.parent(), Some(ComponentPath::from_components(vec![])));
}

#[test]
fn maps_keep_path_order() {
    let mut map: PathMap<u32> = PathMap::new();
    map.insert(absolute(&["b"]), 2);
    map.insert(absolute(&["a"]), 1);
    map.insert(absolute(&["c"]), 3);
    map.insert(absolute(&["b"]), 20);
    assert_eq!(map.len(), 3);
    assert_eq!(map.key_at(0), &absolute(&["a"]));
    assert_eq!(map.get(&absolute(&["b"])), Some(&20));
    assert!(map.remove(&absolute(&["b"])));
    assert!(!map.remove(&absolute(&["b"])));
    assert!(!map.contains_key(&absolute(&["b"])));
    assert_eq!(map.value_at(1), &3);
}

#[test]
fn sets_hold_a_path_once() {
    let mut set = PathSet::new();
    set.insert(absolute(&["a"]));
    set.insert(absolute(&["a"]));
    assert_eq!(set.len(), 1);
    assert!(set.contains(&absolute(&["a"])));
    assert!(!set.contains(&absolute(&["b"])));
    assert_eq!(set.item_at(0), &absolute(&["a"]));
}

#[test]
fn sorting_drops_duplicates() {
    let sorted = sorted_without_duplicates(&vec![
        absolute(&["b"]),
        absolute(&["a", "z"]),
        absolute(&["b"]),
        absolute(&["a"]),
    ]);
    assert_eq!(sorted, vec![absolute(&["a"]), absolute(&["a", "z"]), absolute(&["b"])]);
}
