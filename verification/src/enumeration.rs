//! Listing the dependencies of a project, one root and provider at a time.

use vstd::prelude::*;

use crate::path::{path_views, ComponentPath, PathView};

verus! {

/// A dependency that a provider listed.
#[derive(Debug, PartialEq, Eq)]
pub struct Dependency {
    /// Where the dependency's sources are.
    pub source_path: ComponentPath,
}

/// The source paths of `dependencies`, in order.
pub open spec fn source_paths(dependencies: Seq<Dependency>) -> Seq<PathView> {
    dependencies.map_values(|dependency: Dependency| dependency.source_path@)
}

/// A run over every root and, for each of them, every provider.
#[derive(Debug, PartialEq, Eq)]
pub struct EnumerationRun {
    roots: Vec<ComponentPath>,
    providers: usize,
    root_index: usize,
    provider_index: usize,
    dependencies: Vec<ComponentPath>,
}

/// The mathematical value of an [`EnumerationRun`].
#[verifier::ext_equal]
pub struct RunView {
    /// The roots whose dependencies are listed.
    pub roots: Seq<PathView>,
    /// How many providers are asked about each root.
    pub providers: nat,
    /// How many listings are in.
    pub recorded: nat,
    /// What the listings named so far.
    pub dependencies: Seq<PathView>,
}

/// What a listing adds: nothing if it failed.
pub open spec fn listed_paths<E>(listing: Result<Vec<Dependency>, E>) -> Seq<PathView> {
    match listing {
        Ok(dependencies) => source_paths(dependencies@),
        Err(_) => Seq::empty(),
    }
}

impl RunView {
    /// A run before its first listing.
    pub open spec fn start(roots: Seq<PathView>, providers: nat) -> RunView {
        RunView { roots, providers, recorded: 0, dependencies: Seq::empty() }
    }

    /// The number of listings that the run asks for.
    pub open spec fn total(self) -> nat {
        self.roots.len() * self.providers
    }

    /// The root and the provider to ask next. All providers are asked about
    /// one root before the next root's turn comes.
    pub open spec fn next(self) -> Option<(int, int)> {
        if self.recorded < self.total() {
            Some(
                (
                    self.recorded as int / self.providers as int,
                    self.recorded as int % self.providers as int,
                ),
            )
        } else {
            None
        }
    }

    /// The run after one more listing.
    pub open spec fn record(self, paths: Seq<PathView>) -> RunView {
        RunView {
            recorded: self.recorded + 1,
            dependencies: self.dependencies + paths,
            ..self
        }
    }
}

impl View for EnumerationRun {
    type V = RunView;

    closed spec fn view(&self) -> RunView {
        RunView {
            roots: path_views(self.roots@),
            providers: self.providers as nat,
            recorded: (self.root_index * self.providers + self.provider_index) as nat,
            dependencies: path_views(self.dependencies@),
        }
    }
}

impl EnumerationRun {
    /// The position is within the run, or at its end.
    pub closed spec fn wf(self) -> bool {
        &&& self.root_index <= self.roots@.len()
        &&& self.root_index < self.roots@.len() ==> self.provider_index < self.providers
        &&& self.root_index == self.roots@.len() ==> self.provider_index == 0
    }

    /// A run over `roots` with that many providers.
    pub fn new(roots: Vec<ComponentPath>, providers: usize) -> (run: EnumerationRun)
        ensures
            run.wf(),
            run@ == RunView::start(path_views(roots@), providers as nat),
    {
        let root_index: usize = if providers == 0 {
            roots.len()
        } else {
            0
        };
        let run = EnumerationRun {
            roots,
            providers,
            root_index,
            provider_index: 0,
            dependencies: Vec::new(),
        };
        assert(root_index * providers == 0) by (nonlinear_arith)
            requires
                root_index == 0 || providers == 0,
        ;
        assert(run@ =~= RunView::start(path_views(roots@), providers as nat));
        run
    }

    /// The root at position `i`.
    pub fn root(&self, i: usize) -> (root: &ComponentPath)
        requires
            i < self@.roots.len(),
        ensures
            root@ == self@.roots[i as int],
    {
        &self.roots[i]
    }

    /// The positions of the root and the provider to ask next, or `None` when
    /// every provider has been asked about every root.
    pub fn next_listing(&self) -> (next: Option<(usize, usize)>)
        requires
            self.wf(),
        ensures
            match next {
                Some((root, provider)) => self@.next() == Some((root as int, provider as int))
                    && root < self@.roots.len() && provider < self@.providers,
                None => self@.next() is None,
            },
    {
        let ghost recorded = self@.recorded as int;
        if self.root_index < self.roots.len() {
            proof {
                let total = self.roots@.len() * self.providers;
                assert(self.root_index * self.providers + self.provider_index < total) by (nonlinear_arith)
                    requires
                        self.root_index + 1 <= self.roots@.len(),
                        self.provider_index < self.providers,
                        total == self.roots@.len() * self.providers,
                ;
                vstd::arithmetic::div_mod::lemma_fundamental_div_mod_converse(
                    recorded,
                    self.providers as int,
                    self.root_index as int,
                    self.provider_index as int,
                );
            }
            Some((self.root_index, self.provider_index))
        } else {
            None
        }
    }

    /// Takes in the answer to the listing that [`Self::next_listing`] named.
    /// A listing that failed adds no dependencies.
    pub fn record_listing<E>(&mut self, listing: Result<Vec<Dependency>, E>)
        requires
            old(self).wf(),
            old(self)@.next() is Some,
        ensures
            final(self).wf(),
            final(self)@ == old(self)@.record(listed_paths(listing)),
            match listing {
                Ok(dependencies) => {
                    let before = old(self)@.dependencies;
                    let after = final(self)@.dependencies;
                    &&& after.len() == before.len() + dependencies@.len()
                    &&& forall|i: int| 0 <= i < before.len() ==> #[trigger] after[i] == before[i]
                    &&& forall|i: int|
                        0 <= i < dependencies@.len() ==> after[before.len() + i] == (
                        #[trigger] dependencies@[i]).source_path@
                },
                Err(_) => final(self)@.dependencies == old(self)@.dependencies,
            },
    {
        proof {
            assert(self.root_index < self.roots.len()) by {
                if self.root_index == self.roots@.len() {
                    assert(self@.recorded == self@.total());
                }
            }
            assert((self.root_index + 1) * self.providers == self.root_index * self.providers
                + self.providers) by (nonlinear_arith);
        }
        if let Ok(dependencies) = listing {
            self.extend(dependencies);
        }
        if self.provider_index + 1 < self.providers {
            self.provider_index = self.provider_index + 1;
        } else {
            self.provider_index = 0;
            self.root_index = self.root_index + 1;
        }
        assert(self@.dependencies =~= old(self)@.dependencies + listed_paths(listing));
        assert(self@ =~= old(self)@.record(listed_paths(listing)));
    }

    /// Appends the source paths of `dependencies`.
    fn extend(&mut self, dependencies: Vec<Dependency>)
        ensures
            final(self).roots == old(self).roots,
            final(self).providers == old(self).providers,
            final(self).root_index == old(self).root_index,
            final(self).provider_index == old(self).provider_index,
            path_views(final(self).dependencies@) == path_views(old(self).dependencies@) + source_paths(
                dependencies@,
            ),
            final(self).dependencies@.len() == old(self).dependencies@.len() + dependencies@.len(),
            forall|i: int|
                0 <= i < old(self).dependencies@.len() ==> (#[trigger] final(self).dependencies@[i])@
                    == old(self).dependencies@[i]@,
            forall|i: int|
                0 <= i < dependencies@.len() ==> final(self).dependencies@[old(
                    self,
                ).dependencies@.len() + i]@ == (#[trigger] dependencies@[i]).source_path@,
    {
        let mut i: usize = 0;
        while i < dependencies.len()
            invariant
                i <= dependencies@.len(),
                self.roots == old(self).roots,
                self.providers == old(self).providers,
                self.root_index == old(self).root_index,
                self.provider_index == old(self).provider_index,
                path_views(self.dependencies@) == path_views(old(self).dependencies@) + source_paths(
                    dependencies@,
                ).take(i as int),
            decreases dependencies@.len() - i,
        {
            let ghost before = path_views(self.dependencies@);
            let path = dependencies[i].source_path.duplicate();
            self.dependencies.push(path);
            proof {
                assert(path_views(self.dependencies@) =~= before.push(source_paths(dependencies@)[i as int]));
                assert(source_paths(dependencies@).take(i + 1) =~= source_paths(dependencies@).take(
                    i as int,
                ).push(source_paths(dependencies@)[i as int]));
            }
            i += 1;
        }
        proof {
            assert(source_paths(dependencies@).take(i as int) =~= source_paths(dependencies@));
            let before = path_views(old(self).dependencies@);
            let after = path_views(self.dependencies@);
            assert(after.len() == self.dependencies@.len());
            assert forall|j: int| 0 <= j < old(self).dependencies@.len() implies (
            #[trigger] self.dependencies@[j])@ == old(self).dependencies@[j]@ by {
                assert(after[j] == before[j]);
            }
            assert forall|j: int| 0 <= j < dependencies@.len() implies self.dependencies@[old(
                self,
            ).dependencies@.len() + j]@ == (#[trigger] dependencies@[j]).source_path@ by {
                assert(after[before.len() + j] == source_paths(dependencies@)[j]);
            }
        }
    }

    /// The dependencies that the listings named, in the order of the listings.
    pub fn into_dependencies(self) -> (dependencies: Vec<ComponentPath>)
        ensures
            path_views(dependencies@) == self@.dependencies,
            dependencies@.len() == self@.dependencies.len(),
            forall|i: int|
                0 <= i < dependencies@.len() ==> (#[trigger] dependencies@[i])@
                    == self@.dependencies[i],
    {
        self.dependencies
    }
}

} // verus!
