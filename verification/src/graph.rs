//! The mathematical model of a package graph: packages kept in the order of
//! their identities, and the reverse dependency edges between them.

use crate::document::{MetadataDocumentView, PackageRecordView};
use crate::ident::{
    lemma_filter_keeps_increasing, lemma_increasing_determined_by_members, strictly_increasing,
};
use vstd::prelude::*;

verus! {

pub struct PackageView {
    pub name: Seq<char>,
    pub src_paths: Seq<Seq<char>>,
}

/// The model of a package graph.
///
/// `ids` and `packages` run in parallel: `packages[i]` is the package with
/// the identity `ids[i]`. An edge `(a, b)` says that `b` depends on `a`.
pub struct GraphView {
    pub ids: Seq<Seq<char>>,
    pub packages: Seq<PackageView>,
    pub workspace_members: Seq<Seq<char>>,
    pub workspace_root: Seq<char>,
    pub target_directory: Seq<char>,
    pub edges: Set<(Seq<char>, Seq<char>)>,
}

/// What a graph keeps of a record of the package list.
pub open spec fn package_of_record(record: PackageRecordView) -> PackageView {
    PackageView { name: record.name, src_paths: record.src_paths }
}

impl GraphView {
    /// The graph is the one that the document describes: it has the
    /// document's packages, each as its last record gives it, the document's
    /// workspace and directories, and an edge for every dependency of the
    /// resolved graph and for nothing else.
    pub open spec fn represents(self, document: MetadataDocumentView) -> bool {
        &&& self.workspace_members == document.workspace_members
        &&& self.workspace_root == document.workspace_root
        &&& self.target_directory == document.target_directory
        &&& forall|id: Seq<char>| self.ids.contains(id) <==> document.has_package(id)
        &&& forall|k: int| #[trigger]
            document.is_last_record(k) ==> self.package_of(document.packages[k].id)
                == package_of_record(document.packages[k])
        &&& forall|a: Seq<char>, b: Seq<char>| #[trigger]
            self.has_edge(a, b) <==> document.has_dependency(a, b)
    }

    /// The packages are kept in strictly increasing order of identity, and
    /// both ends of every edge are packages of the graph.
    pub open spec fn wf(self) -> bool {
        &&& self.ids.len() == self.packages.len()
        &&& strictly_increasing(self.ids)
        &&& forall|a: Seq<char>, b: Seq<char>| #[trigger]
            self.edges.contains((a, b)) ==> self.ids.contains(a) && self.ids.contains(b)
    }

    /// The package with the identity `id`, for an identity of the graph.
    pub open spec fn package_of(self, id: Seq<char>) -> PackageView
        recommends
            self.ids.contains(id),
    {
        self.packages[self.ids.index_of(id)]
    }

    /// `b` depends directly on `a`.
    pub open spec fn has_edge(self, a: Seq<char>, b: Seq<char>) -> bool {
        self.edges.contains((a, b))
    }

    /// A chain of one or more reverse dependency edges: each package of the
    /// chain depends directly on the one before it.
    pub open spec fn is_chain(self, chain: Seq<Seq<char>>) -> bool {
        &&& chain.len() >= 2
        &&& forall|i: int| 0 <= i < chain.len() - 1 ==> self.has_edge(#[trigger] chain[i], chain[i + 1])
    }

    /// `to` depends on `from`, directly or through other packages.
    pub open spec fn reaches(self, from: Seq<char>, to: Seq<char>) -> bool {
        exists|chain: Seq<Seq<char>>| #[trigger]
            self.is_chain(chain) && chain[0] == from && chain.last() == to
    }

    /// The test "depends on `id`, directly or not".
    pub open spec fn is_dependent_of(self, id: Seq<char>) -> spec_fn(Seq<char>) -> bool {
        |d: Seq<char>| self.reaches(id, d)
    }

    /// The identities that depend on `id`, directly or not, in the order of
    /// identities.
    pub open spec fn dependents_of(self, id: Seq<char>) -> Seq<Seq<char>> {
        self.ids.filter(self.is_dependent_of(id))
    }

    /// Some package named `name` has `d` among its dependents.
    pub open spec fn depends_on_named(self, name: Seq<char>, d: Seq<char>) -> bool {
        exists|i: int|
            0 <= i < self.ids.len() && self.packages[i].name == name && self.reaches(
                #[trigger] self.ids[i],
                d,
            )
    }

    /// The test "depends on a package named `name`".
    pub open spec fn is_dependent_of_named(self, name: Seq<char>) -> spec_fn(Seq<char>) -> bool {
        |d: Seq<char>| self.depends_on_named(name, d)
    }

    /// The test "is a member of the workspace".
    pub open spec fn is_member(self) -> spec_fn(Seq<char>) -> bool {
        |d: Seq<char>| self.workspace_members.contains(d)
    }

    /// The test "is no member of the workspace".
    pub open spec fn is_outsider(self) -> spec_fn(Seq<char>) -> bool {
        |d: Seq<char>| !self.workspace_members.contains(d)
    }

    /// The dependents of all packages named `name`, in the order of
    /// identities.
    pub open spec fn dependents_of_named(self, name: Seq<char>) -> Seq<Seq<char>> {
        self.ids.filter(self.is_dependent_of_named(name))
    }

    /// Those of them that are members of the workspace.
    pub open spec fn in_workspace_dependents(self, name: Seq<char>) -> Seq<Seq<char>> {
        self.dependents_of_named(name).filter(self.is_member())
    }

    /// Those of them that are not.
    pub open spec fn out_of_workspace_dependents(self, name: Seq<char>) -> Seq<Seq<char>> {
        self.dependents_of_named(name).filter(self.is_outsider())
    }

    /// The source files of the dependents inside the workspace, package by
    /// package in the order of identities.
    pub open spec fn touch_paths(self, name: Seq<char>) -> Seq<Seq<char>> {
        self.in_workspace_dependents(name).map_values(
            |d: Seq<char>| self.package_of(d).src_paths,
        ).flatten()
    }

    /// The names of the dependents outside the workspace, in the order of
    /// identities.
    pub open spec fn clean_packages(self, name: Seq<char>) -> Seq<Seq<char>> {
        self.out_of_workspace_dependents(name).map_values(|d: Seq<char>| self.package_of(d).name)
    }

    /// A direct dependent is a dependent.
    pub proof fn lemma_edge_reaches(self, a: Seq<char>, b: Seq<char>)
        requires
            self.has_edge(a, b),
        ensures
            self.reaches(a, b),
    {
        let chain = seq![a, b];
        assert(self.is_chain(chain));
        assert(chain[0] == a && chain.last() == b);
    }

    /// A direct dependent of a dependent is a dependent.
    pub proof fn lemma_reaches_then_edge(self, from: Seq<char>, via: Seq<char>, to: Seq<char>)
        requires
            self.reaches(from, via),
            self.has_edge(via, to),
        ensures
            self.reaches(from, to),
    {
        let chain = choose|chain: Seq<Seq<char>>| #[trigger]
            self.is_chain(chain) && chain[0] == from && chain.last() == via;
        let longer = chain.push(to);
        assert forall|i: int| 0 <= i < longer.len() - 1 implies self.has_edge(
            #[trigger] longer[i],
            longer[i + 1],
        ) by {
            if i < chain.len() - 1 {
                assert(self.has_edge(chain[i], chain[i + 1]));
            }
        }
        assert(self.is_chain(longer));
        assert(longer[0] == from && longer.last() == to);
    }

    /// Every dependent is a package of the graph.
    pub proof fn lemma_reaches_within(self, from: Seq<char>, to: Seq<char>)
        requires
            self.wf(),
            self.reaches(from, to),
        ensures
            self.ids.contains(from),
            self.ids.contains(to),
    {
        let chain = choose|chain: Seq<Seq<char>>| #[trigger]
            self.is_chain(chain) && chain[0] == from && chain.last() == to;
        assert(self.has_edge(chain[0], chain[1]));
        let k = chain.len() - 2;
        assert(self.has_edge(chain[k], chain[k + 1]));
    }

    /// The members of a chain after its first lie in every set that holds
    /// the direct dependents of the chain's start and of its own members.
    proof fn lemma_chain_in_closed_set(
        self,
        from: Seq<char>,
        marked: Set<Seq<char>>,
        chain: Seq<Seq<char>>,
        i: int,
    )
        requires
            self.is_chain(chain),
            chain[0] == from,
            1 <= i < chain.len(),
            forall|a: Seq<char>, b: Seq<char>|
                (a == from || marked.contains(a)) && #[trigger] self.has_edge(a, b)
                    ==> marked.contains(b),
        ensures
            marked.contains(chain[i]),
        decreases i,
    {
        if i > 1 {
            self.lemma_chain_in_closed_set(from, marked, chain, i - 1);
        }
        assert(self.has_edge(chain[i - 1], chain[i - 1 + 1]));
    }

    /// A set that holds the direct dependents of `from` and of each of its
    /// own members holds all dependents of `from`.
    pub proof fn lemma_closed_set_holds_dependents(self, from: Seq<char>, marked: Set<Seq<char>>)
        requires
            forall|a: Seq<char>, b: Seq<char>|
                (a == from || marked.contains(a)) && #[trigger] self.has_edge(a, b)
                    ==> marked.contains(b),
        ensures
            forall|to: Seq<char>| self.reaches(from, to) ==> marked.contains(to),
    {
        assert forall|to: Seq<char>| self.reaches(from, to) implies marked.contains(to) by {
            let chain = choose|chain: Seq<Seq<char>>| #[trigger]
                self.is_chain(chain) && chain[0] == from && chain.last() == to;
            self.lemma_chain_in_closed_set(from, marked, chain, chain.len() - 1);
        }
    }
}

/// The dependents of a package are exactly the packages that a chain of
/// reverse dependency edges leads to from it; they come in strictly
/// increasing order of identity, so none is listed twice.
pub proof fn lemma_dependents_are_the_reachable(graph: GraphView, id: Seq<char>)
    requires
        graph.wf(),
    ensures
        forall|d: Seq<char>| graph.dependents_of(id).contains(d) <==> graph.reaches(id, d),
        strictly_increasing(graph.dependents_of(id)),
{
    let test = graph.is_dependent_of(id);
    let found = graph.dependents_of(id);
    assert forall|d: Seq<char>| found.contains(d) <==> graph.reaches(id, d) by {
        if found.contains(d) {
            let i = choose|i: int| 0 <= i < found.len() && found[i] == d;
            graph.ids.lemma_filter_pred(test, i);
        }
        if graph.reaches(id, d) {
            graph.lemma_reaches_within(id, d);
            let i = choose|i: int| 0 <= i < graph.ids.len() && graph.ids[i] == d;
            graph.ids.lemma_filter_contains(test, i);
        }
    }
    lemma_filter_keeps_increasing(graph.ids, test);
}

/// The dependents of a package do not depend on the order in which the
/// document lists the dependencies: two documents with one package list
/// whose resolved graphs hold the same dependencies, in whatever order and
/// however often, give graphs with the same dependents.
pub proof fn lemma_dependents_ignore_edge_order(
    first: GraphView,
    second: GraphView,
    document: MetadataDocumentView,
    reordered: MetadataDocumentView,
    id: Seq<char>,
)
    requires
        first.wf(),
        second.wf(),
        first.represents(document),
        second.represents(reordered),
        document.packages == reordered.packages,
        forall|a: Seq<char>, b: Seq<char>|
            document.has_dependency(a, b) <==> reordered.has_dependency(a, b),
    ensures
        first.dependents_of(id) == second.dependents_of(id),
{
    assert forall|x: Seq<char>| first.ids.contains(x) <==> second.ids.contains(x) by {
        assert(first.ids.contains(x) <==> document.has_package(x));
        assert(second.ids.contains(x) <==> reordered.has_package(x));
    }
    lemma_increasing_determined_by_members(first.ids, second.ids);
    assert forall|a: Seq<char>, b: Seq<char>| first.has_edge(a, b) <==> second.has_edge(a, b) by {
        assert(first.has_edge(a, b) <==> document.has_dependency(a, b));
        assert(second.has_edge(a, b) <==> reordered.has_dependency(a, b));
    }
    assert forall|d: Seq<char>| first.reaches(id, d) <==> second.reaches(id, d) by {
        if first.reaches(id, d) {
            let chain = choose|chain: Seq<Seq<char>>| #[trigger]
                first.is_chain(chain) && chain[0] == id && chain.last() == d;
            assert forall|i: int| 0 <= i < chain.len() - 1 implies second.has_edge(
                #[trigger] chain[i],
                chain[i + 1],
            ) by {
                assert(first.has_edge(chain[i], chain[i + 1]));
            }
            assert(second.is_chain(chain));
        }
        if second.reaches(id, d) {
            let chain = choose|chain: Seq<Seq<char>>| #[trigger]
                second.is_chain(chain) && chain[0] == id && chain.last() == d;
            assert forall|i: int| 0 <= i < chain.len() - 1 implies first.has_edge(
                #[trigger] chain[i],
                chain[i + 1],
            ) by {
                assert(second.has_edge(chain[i], chain[i + 1]));
            }
            assert(first.is_chain(chain));
        }
    }
    assert(first.is_dependent_of(id) =~= second.is_dependent_of(id));
}

/// The plan splits the dependents of the packages named `name` in two:
/// no package is both among the dependents inside the workspace and among
/// those outside it, and a package is among the ones or the others exactly
/// if it depends on a package of that name.
pub proof fn lemma_plan_partitions_dependents(graph: GraphView, name: Seq<char>)
    requires
        graph.wf(),
    ensures
        forall|d: Seq<char>|
            !(graph.in_workspace_dependents(name).contains(d)
                && graph.out_of_workspace_dependents(name).contains(d)),
        forall|d: Seq<char>|
            (graph.in_workspace_dependents(name).contains(d)
                || graph.out_of_workspace_dependents(name).contains(d)) <==> graph.depends_on_named(
                name,
                d,
            ),
{
    let all = graph.dependents_of_named(name);
    let inside = graph.in_workspace_dependents(name);
    let outside = graph.out_of_workspace_dependents(name);
    let test = graph.is_dependent_of_named(name);
    assert forall|d: Seq<char>| inside.contains(d) implies graph.workspace_members.contains(d)
        && all.contains(d) by {
        let i = choose|i: int| 0 <= i < inside.len() && inside[i] == d;
        all.lemma_filter_pred(graph.is_member(), i);
        all.lemma_filter_contains_rev(graph.is_member(), d);
    }
    assert forall|d: Seq<char>| outside.contains(d) implies !graph.workspace_members.contains(d)
        && all.contains(d) by {
        let i = choose|i: int| 0 <= i < outside.len() && outside[i] == d;
        all.lemma_filter_pred(graph.is_outsider(), i);
        all.lemma_filter_contains_rev(graph.is_outsider(), d);
    }
    assert forall|d: Seq<char>| all.contains(d) <==> graph.depends_on_named(name, d) by {
        if all.contains(d) {
            let i = choose|i: int| 0 <= i < all.len() && all[i] == d;
            graph.ids.lemma_filter_pred(test, i);
        }
        if graph.depends_on_named(name, d) {
            let m = choose|m: int|
                0 <= m < graph.ids.len() && graph.packages[m].name == name && graph.reaches(
                    #[trigger] graph.ids[m],
                    d,
                );
            graph.lemma_reaches_within(graph.ids[m], d);
            let i = choose|i: int| 0 <= i < graph.ids.len() && graph.ids[i] == d;
            graph.ids.lemma_filter_contains(test, i);
        }
    }
    assert forall|d: Seq<char>| all.contains(d) implies inside.contains(d) || outside.contains(d) by {
        let i = choose|i: int| 0 <= i < all.len() && all[i] == d;
        if graph.workspace_members.contains(d) {
            all.lemma_filter_contains(graph.is_member(), i);
        } else {
            all.lemma_filter_contains(graph.is_outsider(), i);
        }
    }
}

/// Where no package is named `name` there is nothing to do: the plan names
/// no package to clean and no file to touch.
pub proof fn lemma_absent_marker_gives_empty_plan(graph: GraphView, name: Seq<char>)
    requires
        graph.ids.len() == graph.packages.len(),
        forall|i: int| 0 <= i < graph.packages.len() ==> (#[trigger] graph.packages[i]).name != name,
    ensures
        graph.clean_packages(name) == Seq::<Seq<char>>::empty(),
        graph.touch_paths(name) == Seq::<Seq<char>>::empty(),
{
    let test = graph.is_dependent_of_named(name);
    assert forall|i: int| 0 <= i < graph.ids.len() implies !test(#[trigger] graph.ids[i]) by {
        if graph.depends_on_named(name, graph.ids[i]) {
            let m = choose|m: int|
                0 <= m < graph.ids.len() && graph.packages[m].name == name && graph.reaches(
                    #[trigger] graph.ids[m],
                    graph.ids[i],
                );
            assert(graph.packages[m].name != name);
        }
    }
    assert(graph.ids.all(|d: Seq<char>| !test(d)));
    graph.ids.lemma_all_neg_filter_empty(test);
    let all = graph.dependents_of_named(name);
    assert(all =~= Seq::empty());
    reveal(Seq::filter);
    assert(graph.in_workspace_dependents(name) =~= Seq::empty());
    assert(graph.out_of_workspace_dependents(name) =~= Seq::empty());
    assert(graph.clean_packages(name) =~= Seq::empty());
    assert(graph.in_workspace_dependents(name).map_values(
        |d: Seq<char>| graph.package_of(d).src_paths,
    ) =~= Seq::empty());
}

} // verus!
