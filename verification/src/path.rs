//! File system paths, held as their components.
//!
//! Every question the library asks of a path (equality, order, whether one
//! path lies under another, what its parent is) is a question about its
//! components, so a path is the sequence of them.

use vstd::prelude::*;

verus! {

/// One component of a path.
#[derive(Debug, PartialEq, Eq)]
pub enum PathComponent {
    /// A volume or share prefix, such as `C:`.
    Prefix(Vec<u8>),
    /// The root directory.
    RootDir,
    /// A leading reference to the current directory.
    CurDir,
    /// A reference to the parent directory.
    ParentDir,
    /// A file or directory name.
    Normal(Vec<u8>),
}

/// A path as the sequence of its components.
#[derive(Debug, PartialEq, Eq)]
pub struct ComponentPath {
    pub components: Vec<PathComponent>,
}

/// The mathematical value of a [`PathComponent`].
pub enum ComponentView {
    Prefix(Seq<u8>),
    RootDir,
    CurDir,
    ParentDir,
    Normal(Seq<u8>),
}

/// The mathematical value of a [`ComponentPath`].
pub type PathView = Seq<ComponentView>;

impl View for PathComponent {
    type V = ComponentView;

    open spec fn view(&self) -> ComponentView {
        match self {
            PathComponent::Prefix(name) => ComponentView::Prefix(name@),
            PathComponent::RootDir => ComponentView::RootDir,
            PathComponent::CurDir => ComponentView::CurDir,
            PathComponent::ParentDir => ComponentView::ParentDir,
            PathComponent::Normal(name) => ComponentView::Normal(name@),
        }
    }
}

impl View for ComponentPath {
    type V = Seq<ComponentView>;

    open spec fn view(&self) -> Seq<ComponentView> {
        self.components@.map_values(|component: PathComponent| component@)
    }
}

/// The values of the given paths.
pub open spec fn path_views(paths: Seq<ComponentPath>) -> Seq<PathView> {
    paths.map_values(|path: ComponentPath| path@)
}

/// The kind of a component as a number, in the order in which kinds compare.
pub open spec fn component_rank(component: ComponentView) -> int {
    match component {
        ComponentView::Prefix(_) => 0,
        ComponentView::RootDir => 1,
        ComponentView::CurDir => 2,
        ComponentView::ParentDir => 3,
        ComponentView::Normal(_) => 4,
    }
}

/// The name that a component carries; empty for the kinds that carry none.
pub open spec fn component_name(component: ComponentView) -> Seq<u8> {
    match component {
        ComponentView::Prefix(name) => name,
        ComponentView::Normal(name) => name,
        _ => Seq::empty(),
    }
}

/// Byte strings in lexicographic order.
pub open spec fn bytes_lt(a: Seq<u8>, b: Seq<u8>) -> bool
    decreases a.len(),
{
    if b.len() == 0 {
        false
    } else if a.len() == 0 {
        true
    } else {
        a[0] < b[0] || (a[0] == b[0] && bytes_lt(a.drop_first(), b.drop_first()))
    }
}

/// Components compare by kind, then by name.
pub open spec fn component_lt(a: ComponentView, b: ComponentView) -> bool {
    ||| component_rank(a) < component_rank(b)
    ||| component_rank(a) == component_rank(b) && bytes_lt(component_name(a), component_name(b))
}

/// Paths in lexicographic order of their components.
pub open spec fn path_lt(a: PathView, b: PathView) -> bool
    decreases a.len(),
{
    if b.len() == 0 {
        false
    } else if a.len() == 0 {
        true
    } else {
        component_lt(a[0], b[0]) || (a[0] == b[0] && path_lt(a.drop_first(), b.drop_first()))
    }
}

/// The directory that holds `path`: the path without its last component.
/// A root, a bare prefix and the empty path have none.
pub open spec fn parent_of(path: PathView) -> Option<PathView> {
    if path.len() == 0 || component_rank(path.last()) <= 1 {
        None
    } else {
        Some(path.drop_last())
    }
}

/// `path` lies strictly below `root`.
pub open spec fn lies_under(path: PathView, root: PathView) -> bool {
    root.is_prefix_of(path) && root.len() < path.len()
}

proof fn lemma_bytes_lt_irreflexive(a: Seq<u8>)
    ensures
        !bytes_lt(a, a),
    decreases a.len(),
{
    if a.len() > 0 {
        lemma_bytes_lt_irreflexive(a.drop_first());
    }
}

proof fn lemma_bytes_lt_transitive(a: Seq<u8>, b: Seq<u8>, c: Seq<u8>)
    requires
        bytes_lt(a, b),
        bytes_lt(b, c),
    ensures
        bytes_lt(a, c),
    decreases a.len(),
{
    if a.len() > 0 && a[0] == b[0] && b[0] == c[0] {
        lemma_bytes_lt_transitive(a.drop_first(), b.drop_first(), c.drop_first());
    }
}

proof fn lemma_bytes_lt_total(a: Seq<u8>, b: Seq<u8>)
    ensures
        a == b || bytes_lt(a, b) || bytes_lt(b, a),
    decreases a.len(),
{
    if a.len() > 0 && b.len() > 0 && a[0] == b[0] {
        lemma_bytes_lt_total(a.drop_first(), b.drop_first());
        if a.drop_first() == b.drop_first() {
            assert(a =~= seq![a[0]] + a.drop_first());
            assert(b =~= seq![b[0]] + b.drop_first());
        }
    } else if a.len() == 0 && b.len() == 0 {
        assert(a =~= b);
    }
}

proof fn lemma_component_lt_irreflexive(a: ComponentView)
    ensures
        !component_lt(a, a),
{
    lemma_bytes_lt_irreflexive(component_name(a));
}

proof fn lemma_component_lt_transitive(a: ComponentView, b: ComponentView, c: ComponentView)
    requires
        component_lt(a, b),
        component_lt(b, c),
    ensures
        component_lt(a, c),
{
    if component_rank(a) == component_rank(b) && component_rank(b) == component_rank(c) {
        lemma_bytes_lt_transitive(component_name(a), component_name(b), component_name(c));
    }
}

proof fn lemma_component_lt_total(a: ComponentView, b: ComponentView)
    ensures
        a == b || component_lt(a, b) || component_lt(b, a),
{
    lemma_bytes_lt_total(component_name(a), component_name(b));
}

/// No path comes before itself.
pub proof fn lemma_path_lt_irreflexive(a: PathView)
    ensures
        !path_lt(a, a),
    decreases a.len(),
{
    if a.len() > 0 {
        lemma_component_lt_irreflexive(a[0]);
        lemma_path_lt_irreflexive(a.drop_first());
    }
}

/// The path order is transitive.
pub proof fn lemma_path_lt_transitive(a: PathView, b: PathView, c: PathView)
    requires
        path_lt(a, b),
        path_lt(b, c),
    ensures
        path_lt(a, c),
    decreases a.len(),
{
    if a.len() > 0 {
        if component_lt(a[0], b[0]) && component_lt(b[0], c[0]) {
            lemma_component_lt_transitive(a[0], b[0], c[0]);
        } else if a[0] == b[0] && b[0] == c[0] && !component_lt(a[0], c[0]) {
            lemma_component_lt_irreflexive(a[0]);
            lemma_path_lt_transitive(a.drop_first(), b.drop_first(), c.drop_first());
        }
    }
}

/// Of two different paths one comes before the other.
pub proof fn lemma_path_lt_total(a: PathView, b: PathView)
    ensures
        a == b || path_lt(a, b) || path_lt(b, a),
    decreases a.len(),
{
    if a.len() > 0 && b.len() > 0 {
        lemma_component_lt_total(a[0], b[0]);
        if a[0] == b[0] {
            lemma_path_lt_total(a.drop_first(), b.drop_first());
            if a.drop_first() == b.drop_first() {
                assert(a =~= seq![a[0]] + a.drop_first());
                assert(b =~= seq![b[0]] + b.drop_first());
            }
        }
    } else if a.len() == 0 && b.len() == 0 {
        assert(a =~= b);
    }
}

/// Compares two byte strings for equality.
fn bytes_equal(a: &Vec<u8>, b: &Vec<u8>) -> (equal: bool)
    ensures
        equal == (a@ == b@),
{
    if a.len() != b.len() {
        return false;
    }
    let mut i: usize = 0;
    while i < a.len()
        invariant
            i <= a@.len(),
            a@.len() == b@.len(),
            forall|j: int| 0 <= j < i ==> a@[j] == b@[j],
        decreases a@.len() - i,
    {
        if a[i] != b[i] {
            return false;
        }
        i += 1;
    }
    assert(a@ =~= b@);
    true
}

/// Compares two byte strings in lexicographic order.
fn bytes_less_than(a: &Vec<u8>, b: &Vec<u8>) -> (less: bool)
    ensures
        less == bytes_lt(a@, b@),
{
    let mut i: usize = 0;
    proof {
        assert(a@.skip(0) =~= a@);
        assert(b@.skip(0) =~= b@);
    }
    while i < a.len() && i < b.len()
        invariant
            i <= a@.len(),
            i <= b@.len(),
            bytes_lt(a@, b@) == bytes_lt(a@.skip(i as int), b@.skip(i as int)),
        decreases a@.len() - i,
    {
        proof {
            assert(a@.skip(i as int).drop_first() =~= a@.skip(i + 1));
            assert(b@.skip(i as int).drop_first() =~= b@.skip(i + 1));
        }
        if a[i] < b[i] {
            return true;
        }
        if b[i] < a[i] {
            return false;
        }
        i += 1;
    }
    i < b.len()
}

impl PathComponent {
    /// The kind of this component, in the order in which kinds compare.
    fn rank(&self) -> (rank: u8)
        ensures
            rank == component_rank(self@),
    {
        match self {
            PathComponent::Prefix(_) => 0,
            PathComponent::RootDir => 1,
            PathComponent::CurDir => 2,
            PathComponent::ParentDir => 3,
            PathComponent::Normal(_) => 4,
        }
    }

    /// Whether two components are the same.
    pub fn equals(&self, other: &PathComponent) -> (equal: bool)
        ensures
            equal == (self@ == other@),
    {
        match (self, other) {
            (PathComponent::Prefix(a), PathComponent::Prefix(b)) => bytes_equal(a, b),
            (PathComponent::Normal(a), PathComponent::Normal(b)) => bytes_equal(a, b),
            _ => self.rank() == other.rank(),
        }
    }

    /// Whether this component comes before `other`.
    pub fn less_than(&self, other: &PathComponent) -> (less: bool)
        ensures
            less == component_lt(self@, other@),
    {
        match (self, other) {
            (PathComponent::Prefix(a), PathComponent::Prefix(b)) => bytes_less_than(a, b),
            (PathComponent::Normal(a), PathComponent::Normal(b)) => bytes_less_than(a, b),
            _ => self.rank() < other.rank(),
        }
    }

    /// A copy of this component.
    pub fn duplicate(&self) -> (copy: PathComponent)
        ensures
            copy@ == self@,
    {
        match self {
            PathComponent::Prefix(name) => {
                let copy = name.clone();
                assert(copy@ =~= name@);
                PathComponent::Prefix(copy)
            },
            PathComponent::RootDir => PathComponent::RootDir,
            PathComponent::CurDir => PathComponent::CurDir,
            PathComponent::ParentDir => PathComponent::ParentDir,
            PathComponent::Normal(name) => {
                let copy = name.clone();
                assert(copy@ =~= name@);
                PathComponent::Normal(copy)
            },
        }
    }
}

impl ComponentPath {
    /// The path with the given components.
    pub fn from_components(components: Vec<PathComponent>) -> (path: ComponentPath)
        ensures
            path.components == components,
    {
        ComponentPath { components }
    }

    /// The components from position `start` on.
    fn suffix(&self, start: usize) -> (rest: ComponentPath)
        requires
            start <= self@.len(),
        ensures
            rest@ == self@.skip(start as int),
    {
        let mut components: Vec<PathComponent> = Vec::new();
        let mut i: usize = start;
        while i < self.components.len()
            invariant
                start <= i <= self.components@.len(),
                components@.len() == i - start,
                forall|j: int| 0 <= j < i - start ==> #[trigger] components@[j]@ == self@[j + start],
            decreases self.components@.len() - i,
        {
            components.push(self.components[i].duplicate());
            i += 1;
        }
        let rest = ComponentPath { components };
        assert(rest@ =~= self@.skip(start as int));
        rest
    }

    /// A copy of this path.
    pub fn duplicate(&self) -> (copy: ComponentPath)
        ensures
            copy@ == self@,
    {
        let copy = self.suffix(0);
        assert(self@.skip(0) =~= self@);
        copy
    }

    /// Whether `prefix` is made of the first components of this path.
    pub fn starts_with(&self, prefix: &ComponentPath) -> (result: bool)
        ensures
            result == prefix@.is_prefix_of(self@),
    {
        if prefix.components.len() > self.components.len() {
            return false;
        }
        let mut i: usize = 0;
        while i < prefix.components.len()
            invariant
                i <= prefix@.len() <= self@.len(),
                prefix@.len() == prefix.components@.len(),
                self@.len() == self.components@.len(),
                forall|j: int| 0 <= j < i ==> prefix@[j] == self@[j],
            decreases prefix@.len() - i,
        {
            if !prefix.components[i].equals(&self.components[i]) {
                assert(prefix@[i as int] != self@[i as int]);
                return false;
            }
            i += 1;
        }
        true
    }

    /// Whether two paths have the same components.
    pub fn equals(&self, other: &ComponentPath) -> (equal: bool)
        ensures
            equal == (self@ == other@),
    {
        let equal = self.components.len() == other.components.len() && self.starts_with(other);
        proof {
            assert(self@.len() == self.components@.len() && other@.len() == other.components@.len());
            if equal {
                assert(self@ =~= other@);
            }
        }
        equal
    }

    /// Whether this path comes before `other`.
    pub fn less_than(&self, other: &ComponentPath) -> (less: bool)
        ensures
            less == path_lt(self@, other@),
    {
        let mut i: usize = 0;
        proof {
            assert(self@.skip(0) =~= self@);
            assert(other@.skip(0) =~= other@);
        }
        while i < self.components.len() && i < other.components.len()
            invariant
                i <= self@.len(),
                i <= other@.len(),
                self@.len() == self.components@.len(),
                other@.len() == other.components@.len(),
                path_lt(self@, other@) == path_lt(self@.skip(i as int), other@.skip(i as int)),
            decreases self@.len() - i,
        {
            proof {
                assert(self@.skip(i as int).drop_first() =~= self@.skip(i + 1));
                assert(other@.skip(i as int).drop_first() =~= other@.skip(i + 1));
                lemma_component_lt_irreflexive(self@[i as int]);
            }
            if self.components[i].less_than(&other.components[i]) {
                return true;
            }
            if !self.components[i].equals(&other.components[i]) {
                return false;
            }
            i += 1;
        }
        i < other.components.len()
    }

    /// The rest of this path below `base`, or `None` if it does not start
    /// with `base`.
    pub fn strip_prefix(&self, base: &ComponentPath) -> (rest: Option<ComponentPath>)
        ensures
            rest is Some <==> base@.is_prefix_of(self@),
            rest matches Some(rest) ==> rest@ == self@.skip(base@.len() as int),
    {
        if self.starts_with(base) {
            Some(self.suffix(base.components.len()))
        } else {
            None
        }
    }

    /// Whether this path lies strictly below `root`.
    pub fn is_under(&self, root: &ComponentPath) -> (result: bool)
        ensures
            result == lies_under(self@, root@),
    {
        self.starts_with(root) && root.components.len() < self.components.len()
    }

    /// The directory that holds this path.
    pub fn parent(&self) -> (parent: Option<ComponentPath>)
        ensures
            match parent {
                Some(parent) => parent_of(self@) == Some(parent@),
                None => parent_of(self@) is None,
            },
    {
        let count = self.components.len();
        if count == 0 || self.components[count - 1].rank() <= 1 {
            return None;
        }
        let mut parent = self.duplicate();
        let _ = parent.components.pop();
        assert(parent@ =~= self@.drop_last());
        Some(parent)
    }

    /// The path of the entry called `name` in this directory.
    pub fn join(&self, name: &Vec<u8>) -> (joined: ComponentPath)
        ensures
            joined@ == self@.push(ComponentView::Normal(name@)),
    {
        let mut joined = self.duplicate();
        let name_copy = name.clone();
        assert(name_copy@ =~= name@);
        joined.components.push(PathComponent::Normal(name_copy));
        assert(joined@ =~= self@.push(ComponentView::Normal(name@)));
        joined
    }
}

} // verus!
