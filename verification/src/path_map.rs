//! Maps and sets keyed by path, kept in path order.

use vstd::prelude::*;

use crate::path::{
    lemma_path_lt_irreflexive, lemma_path_lt_total, lemma_path_lt_transitive, path_lt, path_views,
    ComponentPath, PathView,
};

verus! {

/// A map from paths to values whose entries stand in path order.
pub struct PathMap<V> {
    entries: Vec<(ComponentPath, V)>,
}

/// Every key comes before the keys after it.
pub open spec fn strictly_sorted(keys: Seq<PathView>) -> bool {
    forall|i: int, j: int| 0 <= i < j < keys.len() ==> path_lt(#[trigger] keys[i], #[trigger] keys[j])
}

impl<V> PathMap<V> {
    /// The keys in the order in which they are kept.
    pub closed spec fn keys(self) -> Seq<PathView> {
        self.entries@.map_values(|entry: (ComponentPath, V)| entry.0@)
    }

    /// The values in the order in which they are kept.
    pub closed spec fn values(self) -> Seq<V> {
        self.entries@.map_values(|entry: (ComponentPath, V)| entry.1)
    }

    /// The keys are in strict path order, so none occurs twice.
    pub open spec fn wf(self) -> bool {
        strictly_sorted(self.keys())
    }
}

impl<V> View for PathMap<V> {
    type V = Map<PathView, V>;

    open spec fn view(&self) -> Map<PathView, V> {
        Map::new(
            |key: PathView| self.keys().contains(key),
            |key: PathView| self.values()[self.keys().index_of(key)],
        )
    }
}

/// In strictly sorted keys a key has one position.
pub proof fn lemma_sorted_position(keys: Seq<PathView>, i: int)
    requires
        strictly_sorted(keys),
        0 <= i < keys.len(),
    ensures
        keys.index_of(keys[i]) == i,
        keys.contains(keys[i]),
{
    let found = keys.index_of(keys[i]);
    assert(keys.contains(keys[i]));
    assert(0 <= found < keys.len() && keys[found] == keys[i]);
    lemma_path_lt_irreflexive(keys[i]);
    if found < i {
        assert(path_lt(keys[found], keys[i]));
    } else if i < found {
        assert(path_lt(keys[i], keys[found]));
    }
}

/// `sorted` lists the members of `paths` in path order, each once.
pub open spec fn lists_in_order(sorted: Seq<PathView>, paths: Set<PathView>) -> bool {
    &&& strictly_sorted(sorted)
    &&& forall|path: PathView| #[trigger] sorted.contains(path) <==> paths.contains(path)
}

/// The members of `paths` in path order, each once.
pub open spec fn in_path_order(paths: Set<PathView>) -> Seq<PathView> {
    choose|sorted: Seq<PathView>| lists_in_order(sorted, paths)
}

/// There is one way to list paths in path order.
pub proof fn lemma_path_order_unique(a: Seq<PathView>, b: Seq<PathView>, paths: Set<PathView>)
    requires
        lists_in_order(a, paths),
        lists_in_order(b, paths),
    ensures
        a == b,
    decreases a.len(),
{
    if a.len() == 0 {
        if b.len() > 0 {
            assert(b.contains(b[0]));
            assert(a.contains(b[0]));
        }
        assert(a =~= b);
    } else {
        assert(a.contains(a[0]));
        assert(b.contains(a[0]));
        assert(b.contains(b[0]));
        assert(a.contains(b[0]));
        let i = a.index_of(b[0]);
        let j = b.index_of(a[0]);
        assert(a[i] == b[0] && b[j] == a[0]);
        if i > 0 && j > 0 {
            assert(path_lt(a[0], a[i]));
            assert(path_lt(b[0], b[j]));
            lemma_path_lt_transitive(a[0], b[0], a[0]);
            lemma_path_lt_irreflexive(a[0]);
        }
        let first = a[0];
        assert(b[0] == first);
        lemma_order_without_first(a, paths);
        lemma_order_without_first(b, paths);
        lemma_path_order_unique(a.drop_first(), b.drop_first(), paths.remove(first));
        assert(a =~= seq![first] + a.drop_first());
        assert(b =~= seq![first] + b.drop_first());
    }
}

/// Without its first path, a listing in path order lists the other paths.
proof fn lemma_order_without_first(sorted: Seq<PathView>, paths: Set<PathView>)
    requires
        lists_in_order(sorted, paths),
        sorted.len() > 0,
    ensures
        lists_in_order(sorted.drop_first(), paths.remove(sorted[0])),
{
    let rest = sorted.drop_first();
    assert forall|i: int, j: int| 0 <= i < j < rest.len() implies path_lt(
        #[trigger] rest[i],
        #[trigger] rest[j],
    ) by {
        assert(path_lt(sorted[i + 1], sorted[j + 1]));
    }
    assert forall|path: PathView| #[trigger]
        rest.contains(path) <==> paths.remove(sorted[0]).contains(path) by {
        if rest.contains(path) {
            let i = rest.index_of(path);
            assert(sorted[i + 1] == path);
            assert(sorted.contains(path));
            assert(path_lt(sorted[0], sorted[i + 1]));
            lemma_path_lt_irreflexive(path);
        }
        if paths.remove(sorted[0]).contains(path) {
            assert(sorted.contains(path));
            let i = sorted.index_of(path);
            assert(rest[i - 1] == path);
        }
    }
}

/// A listing in path order is the one that [`in_path_order`] names.
pub proof fn lemma_in_path_order(sorted: Seq<PathView>, paths: Set<PathView>)
    requires
        lists_in_order(sorted, paths),
    ensures
        in_path_order(paths) == sorted,
        lists_in_order(in_path_order(paths), paths),
{
    lemma_path_order_unique(sorted, in_path_order(paths), paths);
}

/// `path` among the paths of `sorted`, before the first that comes after it.
spec fn placed(sorted: Seq<PathView>, path: PathView) -> Seq<PathView>
    decreases sorted.len(),
{
    if sorted.len() == 0 {
        seq![path]
    } else if path_lt(path, sorted[0]) {
        seq![path] + sorted
    } else {
        seq![sorted[0]] + placed(sorted.drop_first(), path)
    }
}

proof fn lemma_placed(sorted: Seq<PathView>, paths: Set<PathView>, path: PathView)
    requires
        lists_in_order(sorted, paths),
        !paths.contains(path),
    ensures
        lists_in_order(placed(sorted, path), paths.insert(path)),
    decreases sorted.len(),
{
    let result = placed(sorted, path);
    let wanted = paths.insert(path);
    if sorted.len() == 0 || path_lt(path, sorted[0]) {
        assert(result =~= seq![path] + sorted);
        assert forall|i: int, j: int| 0 <= i < j < result.len() implies path_lt(
            #[trigger] result[i],
            #[trigger] result[j],
        ) by {
            assert(result[j] == sorted[j - 1]);
            if i > 0 {
                assert(result[i] == sorted[i - 1]);
            } else if j > 1 {
                lemma_path_lt_transitive(path, sorted[0], sorted[j - 1]);
            }
        }
        assert forall|other: PathView| #[trigger]
            result.contains(other) <==> wanted.contains(other) by {
            if result.contains(other) {
                let i = result.index_of(other);
                if i > 0 {
                    assert(sorted[i - 1] == other);
                    assert(sorted.contains(other));
                }
            }
            if wanted.contains(other) {
                if other == path {
                    assert(result[0] == other);
                } else {
                    assert(sorted.contains(other));
                    let i = sorted.index_of(other);
                    assert(result[i + 1] == other);
                }
            }
        }
    } else {
        let first = sorted[0];
        let rest = sorted.drop_first();
        assert(sorted.contains(first));
        lemma_path_lt_total(path, first);
        lemma_order_without_first(sorted, paths);
        lemma_placed(rest, paths.remove(first), path);
        let tail = placed(rest, path);
        assert(paths.remove(first).insert(path) =~= wanted.remove(first));
        assert forall|i: int, j: int| 0 <= i < j < result.len() implies path_lt(
            #[trigger] result[i],
            #[trigger] result[j],
        ) by {
            assert(result[j] == tail[j - 1]);
            if i > 0 {
                assert(result[i] == tail[i - 1]);
            } else if result[j] != path {
                assert(tail.contains(tail[j - 1]));
                assert(paths.contains(result[j]));
                assert(sorted.contains(result[j]));
                let k = sorted.index_of(result[j]);
                assert(path_lt(sorted[0], sorted[k]));
            }
        }
        assert forall|other: PathView| #[trigger]
            result.contains(other) <==> wanted.contains(other) by {
            if result.contains(other) {
                let i = result.index_of(other);
                if i > 0 {
                    assert(tail[i - 1] == other);
                    assert(tail.contains(other));
                }
            }
            if wanted.contains(other) {
                if other == first {
                    assert(result[0] == other);
                } else {
                    assert(tail.contains(other));
                    let i = tail.index_of(other);
                    assert(result[i + 1] == other);
                }
            }
        }
    }
}

/// Any finite set of paths can be listed in path order.
pub proof fn lemma_path_order_exists(paths: Set<PathView>)
    requires
        paths.finite(),
    ensures
        lists_in_order(in_path_order(paths), paths),
    decreases paths.len(),
{
    if paths.len() == 0 {
        let none = Seq::<PathView>::empty();
        assert(paths =~= Set::<PathView>::empty());
        assert(lists_in_order(none, paths));
    } else {
        let path = paths.choose();
        let others = paths.remove(path);
        lemma_path_order_exists(others);
        lemma_placed(in_path_order(others), others, path);
        assert(others.insert(path) =~= paths);
    }
}

impl<V> PathMap<V> {
    /// The keys are the map's domain in path order.
    pub proof fn lemma_key_order(self)
        requires
            self.wf(),
        ensures
            self.keys() == in_path_order(self@.dom()),
            lists_in_order(self.keys(), self@.dom()),
    {
        assert(lists_in_order(self.keys(), self@.dom()));
        lemma_in_path_order(self.keys(), self@.dom());
    }

    /// The map has finitely many keys.
    pub proof fn lemma_finite(self)
        ensures
            self@.dom().finite(),
    {
        vstd::seq_lib::seq_to_set_is_finite(self.keys());
        assert(self@.dom() =~= self.keys().to_set());
    }

    /// Keys and values pair up, and the map's contents are those pairs.
    pub proof fn lemma_contents(self)
        requires
            self.wf(),
        ensures
            self.keys().len() == self.values().len(),
            forall|i: int|
                0 <= i < self.keys().len() ==> self@.contains_key(#[trigger] self.keys()[i])
                    && self@[self.keys()[i]] == self.values()[i],
            forall|key: PathView| #[trigger]
                self@.contains_key(key) ==> self.keys().contains(key) && 0 <= self.keys().index_of(key)
                    < self.keys().len() && self.keys()[self.keys().index_of(key)] == key,
    {
        assert forall|i: int| 0 <= i < self.keys().len() implies self@.contains_key(
            #[trigger] self.keys()[i],
        ) && self@[self.keys()[i]] == self.values()[i] by {
            lemma_sorted_position(self.keys(), i);
        }
    }

    /// An empty map.
    pub fn new() -> (map: PathMap<V>)
        ensures
            map.wf(),
            map@ == Map::<PathView, V>::empty(),
            map.keys().len() == 0,
    {
        let map = PathMap { entries: Vec::new() };
        assert(map@ =~= Map::<PathView, V>::empty());
        map
    }

    /// The number of entries.
    pub fn len(&self) -> (len: usize)
        ensures
            len == self.keys().len(),
    {
        self.entries.len()
    }

    /// The key at position `i`.
    pub fn key_at(&self, i: usize) -> (key: &ComponentPath)
        requires
            i < self.keys().len(),
        ensures
            key@ == self.keys()[i as int],
    {
        &self.entries[i].0
    }

    /// The value at position `i`.
    pub fn value_at(&self, i: usize) -> (value: &V)
        requires
            i < self.keys().len(),
        ensures
            *value == self.values()[i as int],
    {
        &self.entries[i].1
    }

    /// The position of the first key that does not come before `key`.
    fn lower_bound(&self, key: &ComponentPath) -> (position: usize)
        requires
            self.wf(),
        ensures
            position <= self.keys().len(),
            forall|i: int| 0 <= i < position ==> path_lt(#[trigger] self.keys()[i], key@),
            position < self.keys().len() ==> !path_lt(self.keys()[position as int], key@),
    {
        let mut position: usize = 0;
        while position < self.entries.len() && self.entries[position].0.less_than(key)
            invariant
                position <= self.keys().len(),
                self.keys().len() == self.entries@.len(),
                forall|i: int| 0 <= i < position ==> path_lt(#[trigger] self.keys()[i], key@),
            decreases self.keys().len() - position,
        {
            assert(path_lt(self.keys()[position as int], key@));
            position += 1;
        }
        position
    }

    /// The position of `key`, if it is in the map.
    pub fn find(&self, key: &ComponentPath) -> (found: Option<usize>)
        requires
            self.wf(),
        ensures
            match found {
                Some(i) => i < self.keys().len() && self.keys()[i as int] == key@,
                None => !self.keys().contains(key@),
            },
            found is Some <==> self@.contains_key(key@),
    {
        let position = self.lower_bound(key);
        if position < self.entries.len() && self.entries[position].0.equals(key) {
            assert(self.keys().contains(self.keys()[position as int]));
            return Some(position);
        }
        proof {
            if self.keys().contains(key@) {
                let i = self.keys().index_of(key@);
                assert(self.keys()[i] == key@);
                lemma_path_lt_irreflexive(key@);
                assert(i >= position);
                if i > position {
                    assert(path_lt(self.keys()[position as int], self.keys()[i]));
                }
            }
        }
        None
    }

    /// Whether `key` is in the map.
    pub fn contains_key(&self, key: &ComponentPath) -> (found: bool)
        requires
            self.wf(),
        ensures
            found == self@.contains_key(key@),
    {
        self.find(key).is_some()
    }

    /// The value stored under `key`.
    pub fn get(&self, key: &ComponentPath) -> (value: Option<&V>)
        requires
            self.wf(),
        ensures
            match value {
                Some(value) => self@.contains_key(key@) && self@[key@] == *value,
                None => !self@.contains_key(key@),
            },
    {
        match self.find(key) {
            Some(i) => {
                proof {
                    self.lemma_contents();
                }
                Some(self.value_at(i))
            },
            None => None,
        }
    }

    /// Access to the value at position `i`.
    pub fn value_at_mut(&mut self, i: usize) -> (value: &mut V)
        requires
            i < old(self).keys().len(),
            old(self).wf(),
        ensures
            *value == old(self).values()[i as int],
            final(self).keys() == old(self).keys(),
            final(self).values() == old(self).values().update(i as int, *final(value)),
    {
        &mut self.entries[i].1
    }

    /// Changing the value at one position changes what is stored under that key.
    pub proof fn lemma_value_changed(before: PathMap<V>, after: PathMap<V>, i: int)
        requires
            before.wf(),
            0 <= i < before.keys().len(),
            after.keys() == before.keys(),
            after.values() == before.values().update(i, after.values()[i]),
        ensures
            after.wf(),
            after@ == before@.insert(before.keys()[i], after.values()[i]),
    {
        before.lemma_contents();
        after.lemma_contents();
        lemma_sorted_position(before.keys(), i);
        let expected = before@.insert(before.keys()[i], after.values()[i]);
        assert(after@.dom() =~= expected.dom());
        assert(after@ =~= expected);
    }

    /// Stores `value` under `key`, in place of what was stored there.
    pub fn insert(&mut self, key: ComponentPath, value: V)
        requires
            old(self).wf(),
        ensures
            final(self).wf(),
            final(self)@ == old(self)@.insert(key@, value),
    {
        let position = self.lower_bound(&key);
        if position < self.entries.len() && self.entries[position].0.equals(&key) {
            self.entries[position].1 = value;
            proof {
                assert(self.keys() =~= old(self).keys());
                assert(self.values() =~= old(self).values().update(position as int, value));
                lemma_sorted_position(self.keys(), position as int);
                old(self).lemma_contents();
                self.lemma_contents();
                assert(self@ =~= old(self)@.insert(key@, value));
            }
            return;
        }
        let ghost key_view = key@;
        let ghost before = old(self).keys();
        proof {
            lemma_path_lt_irreflexive(key_view);
            assert forall|i: int| position <= i < before.len() implies path_lt(
                key_view,
                #[trigger] before[i],
            ) by {
                lemma_path_lt_total(key_view, before[position as int]);
                if i > position {
                    lemma_path_lt_transitive(key_view, before[position as int], before[i]);
                }
            }
        }
        self.entries.insert(position, (key, value));
        proof {
            let after = self.keys();
            assert(after =~= before.insert(position as int, key_view));
            assert(self.values() =~= old(self).values().insert(position as int, value));
            assert forall|i: int, j: int| 0 <= i < j < after.len() implies path_lt(
                #[trigger] after[i],
                #[trigger] after[j],
            ) by {
                let old_i = if i < position { i } else { i - 1 };
                let old_j = if j < position { j } else { j - 1 };
                if i == position {
                    assert(after[j] == before[old_j]);
                } else if j == position {
                    assert(after[i] == before[old_i]);
                } else {
                    assert(after[i] == before[old_i] && after[j] == before[old_j]);
                }
            }
            old(self).lemma_contents();
            self.lemma_contents();
            let expected = old(self)@.insert(key_view, value);
            assert(after[position as int] == key_view);
            assert forall|k: PathView| #[trigger]
                self@.dom().contains(k) == expected.dom().contains(k) && (self@.dom().contains(k)
                    ==> self@[k] == expected[k]) by {
                if self@.contains_key(k) {
                    let i = after.index_of(k);
                    if i < position {
                        assert(before[i] == k);
                    } else if i > position {
                        assert(before[i - 1] == k);
                    }
                }
                if expected.contains_key(k) && k != key_view {
                    let i = before.index_of(k);
                    assert(before[i] == k);
                    if i < position {
                        assert(after[i] == k);
                    } else {
                        assert(after[i + 1] == k);
                    }
                }
            }
            assert(self@.dom() =~= expected.dom());
            assert(self@ =~= expected);
        }
    }

    /// Takes the entry at position `i` out of the map.
    pub fn remove_at(&mut self, i: usize) -> (entry: (ComponentPath, V))
        requires
            i < old(self).keys().len(),
            old(self).wf(),
        ensures
            final(self).wf(),
            entry.0@ == old(self).keys()[i as int],
            entry.1 == old(self).values()[i as int],
            final(self).keys() == old(self).keys().remove(i as int),
            final(self).values() == old(self).values().remove(i as int),
            final(self)@ == old(self)@.remove(old(self).keys()[i as int]),
    {
        let entry = self.entries.remove(i);
        proof {
            let before = old(self).keys();
            let after = self.keys();
            assert(after =~= before.remove(i as int));
            assert(self.values() =~= old(self).values().remove(i as int));
            assert forall|a: int, b: int| 0 <= a < b < after.len() implies path_lt(
                #[trigger] after[a],
                #[trigger] after[b],
            ) by {
                let old_a = if a < i { a } else { a + 1 };
                let old_b = if b < i { b } else { b + 1 };
                assert(after[a] == before[old_a] && after[b] == before[old_b]);
            }
            old(self).lemma_contents();
            self.lemma_contents();
            let key = before[i as int];
            let expected = old(self)@.remove(key);
            assert forall|k: PathView| #[trigger]
                self@.dom().contains(k) == expected.dom().contains(k) && (self@.dom().contains(k)
                    ==> self@[k] == expected[k]) by {
                if self@.contains_key(k) {
                    let a = after.index_of(k);
                    let old_a = if a < i { a } else { a + 1 };
                    assert(before[old_a] == k);
                    lemma_sorted_position(before, old_a);
                    lemma_sorted_position(before, i as int);
                }
                if expected.contains_key(k) {
                    let b = before.index_of(k);
                    assert(before[b] == k);
                    assert(b != i);
                    if b < i {
                        assert(after[b] == k);
                    } else {
                        assert(after[b - 1] == k);
                    }
                }
            }
            assert(self@.dom() =~= expected.dom());
            assert(self@ =~= expected);
        }
        entry
    }

    /// Removes `key`; `true` if it was in the map.
    pub fn remove(&mut self, key: &ComponentPath) -> (removed: bool)
        requires
            old(self).wf(),
        ensures
            final(self).wf(),
            final(self)@ == old(self)@.remove(key@),
            removed == old(self)@.contains_key(key@),
    {
        match self.find(key) {
            Some(i) => {
                let _ = self.remove_at(i);
                true
            },
            None => {
                assert(self@ =~= old(self)@.remove(key@));
                false
            },
        }
    }
}

/// A set of paths.
pub struct PathSet {
    map: PathMap<()>,
}

impl View for PathSet {
    type V = Set<PathView>;

    closed spec fn view(&self) -> Set<PathView> {
        self.map@.dom()
    }
}

impl PathSet {
    /// No path is held twice.
    pub closed spec fn wf(self) -> bool {
        self.map.wf()
    }

    /// The paths in the order in which they are kept.
    pub closed spec fn items(self) -> Seq<PathView> {
        self.map.keys()
    }

    /// The set is finite.
    pub proof fn lemma_finite(self)
        ensures
            self@.finite(),
    {
        self.map.lemma_finite();
    }

    /// The listed paths are the set in path order.
    pub proof fn lemma_item_order(self)
        requires
            self.wf(),
        ensures
            self.items() == in_path_order(self@),
    {
        self.map.lemma_key_order();
    }

    /// An empty set.
    pub fn new() -> (set: PathSet)
        ensures
            set.wf(),
            set@ == Set::<PathView>::empty(),
    {
        let set = PathSet { map: PathMap::new() };
        assert(set@ =~= Set::<PathView>::empty());
        set
    }

    /// The number of paths.
    pub fn len(&self) -> (len: usize)
        ensures
            len == self.items().len(),
    {
        self.map.len()
    }

    /// The path at position `i`.
    pub fn item_at(&self, i: usize) -> (path: &ComponentPath)
        requires
            i < self.items().len(),
        ensures
            path@ == self.items()[i as int],
    {
        self.map.key_at(i)
    }

    /// Whether `path` is in the set.
    pub fn contains(&self, path: &ComponentPath) -> (found: bool)
        requires
            self.wf(),
        ensures
            found == self@.contains(path@),
    {
        self.map.contains_key(path)
    }

    /// Adds `path` to the set.
    pub fn insert(&mut self, path: ComponentPath)
        requires
            old(self).wf(),
        ensures
            final(self).wf(),
            final(self)@ == old(self)@.insert(path@),
    {
        let ghost key = path@;
        self.map.insert(path, ());
        assert(self@ =~= old(self)@.insert(key));
    }
}

/// The given paths in path order, each once.
pub fn sorted_without_duplicates(paths: &Vec<ComponentPath>) -> (sorted: Vec<ComponentPath>)
    ensures
        path_views(sorted@) == in_path_order(path_views(paths@).to_set()),
{
    let mut set = PathSet::new();
    let mut i: usize = 0;
    proof {
        assert(path_views(paths@).take(0).to_set() =~= Set::<PathView>::empty());
    }
    while i < paths.len()
        invariant
            i <= paths@.len(),
            set.wf(),
            set@ == path_views(paths@).take(i as int).to_set(),
        decreases paths@.len() - i,
    {
        set.insert(paths[i].duplicate());
        proof {
            let before = path_views(paths@).take(i as int);
            let after = path_views(paths@).take(i + 1);
            let added = paths@[i as int]@;
            assert(after =~= before.push(added));
            assert(after.to_set() =~= before.to_set().insert(added)) by {
                assert forall|path: PathView|
                    after.contains(path) == (before.contains(path) || path == added) by {
                    if before.contains(path) {
                        let k = before.index_of(path);
                        assert(after[k] == path);
                    }
                    if path == added {
                        assert(after[i as int] == path);
                    }
                    if after.contains(path) && path != added {
                        let k = after.index_of(path);
                        assert(before[k] == path);
                    }
                }
            }
        }
        i += 1;
    }
    proof {
        assert(path_views(paths@).take(i as int) =~= path_views(paths@));
        set.lemma_item_order();
    }
    let mut sorted: Vec<ComponentPath> = Vec::new();
    let mut j: usize = 0;
    while j < set.len()
        invariant
            j <= set.items().len(),
            path_views(sorted@) == set.items().take(j as int),
        decreases set.items().len() - j,
    {
        let ghost before = path_views(sorted@);
        sorted.push(set.item_at(j).duplicate());
        proof {
            assert(path_views(sorted@) =~= before.push(set.items()[j as int]));
            assert(set.items().take(j + 1) =~= set.items().take(j as int).push(set.items()[j as int]));
        }
        j += 1;
    }
    assert(set.items().take(j as int) =~= set.items());
    sorted
}

} // verus!
