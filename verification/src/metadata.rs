//! The package graph of a project, built once from the metadata document of
//! the dependency-resolution tool, and the search for the packages that
//! depend on a given one.

use crate::document::{
    node_dependency, node_pair, parsed_metadata, MetadataDocument, MetadataDocumentView,
    PackageRecord, PackageRecordView, ResolveNode, ResolveNodeView,
};
use crate::graph::{package_of_record, GraphView, PackageView};
use crate::ident::{
    id_before, lemma_id_before_transitive, lemma_increasing_is_duplicate_free, search,
    strictly_increasing, PackageId,
};
use vstd::prelude::*;

verus! {

/// The minimal amount of package information the planner needs.
///
/// The `name` tells the build tool which package to clean; the `src_paths`
/// are touched to make it recompile a package of the workspace.
#[derive(Debug)]
pub struct Package {
    name: String,
    src_paths: Vec<String>,
}

impl View for Package {
    type V = PackageView;

    closed spec fn view(&self) -> PackageView {
        PackageView { name: self.name@, src_paths: self.src_paths.deep_view() }
    }
}

impl DeepView for Package {
    type V = PackageView;

    open spec fn deep_view(&self) -> PackageView {
        self@
    }
}

impl Package {
    pub fn new(name: String, src_paths: Vec<String>) -> (r: Package)
        ensures
            r@ == (PackageView { name: name@, src_paths: src_paths.deep_view() }),
    {
        Package { name, src_paths }
    }

    pub fn name(&self) -> (r: &str)
        ensures
            r@ == self@.name,
    {
        self.name.as_str()
    }

    pub fn src_paths(&self) -> (r: &[String])
        ensures
            r.deep_view() == self@.src_paths,
    {
        self.src_paths.as_slice()
    }
}

/// The number of entries of `marks` that are still `false`.
spec fn unmarked(marks: Seq<bool>) -> nat
    decreases marks.len(),
{
    if marks.len() == 0 {
        0
    } else {
        unmarked(marks.drop_last()) + if marks.last() {
            0nat
        } else {
            1nat
        }
    }
}

proof fn lemma_unmarked_after_mark(marks: Seq<bool>, i: int)
    requires
        0 <= i < marks.len(),
        !marks[i],
    ensures
        unmarked(marks.update(i, true)) + 1 == unmarked(marks),
    decreases marks.len(),
{
    let after = marks.update(i, true);
    if i == marks.len() - 1 {
        assert(after.drop_last() =~= marks.drop_last());
    } else {
        assert(after.drop_last() =~= marks.drop_last().update(i, true));
        lemma_unmarked_after_mark(marks.drop_last(), i);
    }
}

/// The edge that entry `k` of row `u` of the reverse dependencies stands
/// for: the package at the entry depends on the package of the row.
spec fn edge_at(ids: Seq<PackageId>, rows: Seq<Vec<usize>>, u: int, k: int) -> (
    Seq<char>,
    Seq<char>,
) {
    (ids[u]@, ids[rows[u][k] as int]@)
}

spec fn edges_of(ids: Seq<PackageId>, rows: Seq<Vec<usize>>) -> Set<(Seq<char>, Seq<char>)> {
    Set::new(
        |e: (Seq<char>, Seq<char>)|
            exists|u: int, k: int|
                0 <= u < rows.len() && 0 <= k < rows[u].len() && #[trigger] edge_at(ids, rows, u, k)
                    == e,
    )
}

fn clone_strings(strings: &Vec<String>) -> (r: Vec<String>)
    ensures
        r.deep_view() == strings.deep_view(),
{
    let mut out: Vec<String> = Vec::new();
    let mut i: usize = 0;
    while i < strings.len()
        invariant
            i <= strings.len(),
            out.len() == i,
            forall|j: int| 0 <= j < i ==> (#[trigger] out[j])@ == strings[j]@,
        decreases strings.len() - i,
    {
        out.push(strings[i].clone());
        i = i + 1;
    }
    assert(out.deep_view() =~= strings.deep_view());
    out
}

/// Record `k` is the last of the first `upto` records with the identity
/// `id`, and `package` is what a graph keeps of it.
spec fn entry_from(
    records: Seq<PackageRecordView>,
    k: int,
    id: Seq<char>,
    package: PackageView,
    upto: int,
) -> bool {
    &&& 0 <= k < upto
    &&& records[k].id == id
    &&& package == package_of_record(records[k])
    &&& forall|later: int| k < later < upto ==> (#[trigger] records[later]).id != id
}

/// The packages of a package list, in the order of their identities. Of two
/// records with one identity the later one stays, as in a map that is
/// filled record by record. The ghost part of the result names, for each
/// package, the record that it was taken from.
fn index_packages(records: &Vec<PackageRecord>) -> (r: (
    Vec<PackageId>,
    Vec<Package>,
    Ghost<Seq<int>>,
))
    ensures
        r.0.len() == r.1.len(),
        r.0.len() == r.2@.len(),
        strictly_increasing(r.0.deep_view()),
        forall|k: int|
            0 <= k < records.len() ==> r.0.deep_view().contains((#[trigger] records.deep_view()[k]).id),
        forall|p: int|
            0 <= p < r.0.len() ==> entry_from(
                records.deep_view(),
                #[trigger] r.2@[p],
                r.0[p]@,
                r.1[p]@,
                records.len() as int,
            ),
{
    let ghost rv = records.deep_view();
    let mut ids: Vec<PackageId> = Vec::new();
    let mut packages: Vec<Package> = Vec::new();
    let ghost mut src: Seq<int> = Seq::empty();
    let mut i: usize = 0;
    while i < records.len()
        invariant
            i <= records.len(),
            rv == records.deep_view(),
            ids.len() == packages.len(),
            ids.len() == src.len(),
            strictly_increasing(ids.deep_view()),
            forall|k: int| 0 <= k < i ==> ids.deep_view().contains((#[trigger] rv[k]).id),
            forall|p: int|
                0 <= p < ids.len() ==> entry_from(rv, #[trigger] src[p], ids[p]@, packages[p]@, i as int),
        decreases records.len() - i,
    {
        let record = &records[i];
        let package = Package::new(record.name.clone(), clone_strings(&record.src_paths));
        assert(rv[i as int] == record@);
        assert(package@ == package_of_record(rv[i as int]));
        let ghost old_vec = ids@;
        let ghost old_ids = ids.deep_view();
        let ghost old_src = src;
        let ghost old_packages = packages.deep_view();
        proof {
            lemma_increasing_is_duplicate_free(old_ids);
        }
        match search(&ids, record.id.as_str()) {
            Ok(at) => {
                packages.set(at, package);
                proof {
                    src = src.update(at as int, i as int);
                    assert forall|p: int| 0 <= p < ids.len() implies entry_from(
                        rv,
                        #[trigger] src[p],
                        ids[p]@,
                        packages[p]@,
                        i + 1,
                    ) by {
                        if p != at {
                            assert(entry_from(rv, old_src[p], ids[p]@, old_packages[p], i as int));
                            assert(old_ids[p] != old_ids[at as int]);
                        }
                    }
                    assert forall|k: int| 0 <= k < i + 1 implies ids.deep_view().contains(
                        (#[trigger] rv[k]).id,
                    ) by {
                        if k == i {
                            assert(ids.deep_view()[at as int] == rv[k].id);
                        }
                    }
                }
            },
            Err(at) => {
                ids.insert(at, PackageId::new(record.id.as_str()));
                packages.insert(at, package);
                proof {
                    src = src.insert(at as int, i as int);
                    let new_ids = ids.deep_view();
                    let new_packages = packages.deep_view();
                    assert(new_ids =~= old_ids.insert(at as int, record.id@));
                    assert(new_packages =~= old_packages.insert(at as int, package@));
                    assert forall|a: int, b: int| 0 <= a < b < new_ids.len() implies id_before(
                        #[trigger] new_ids[a],
                        #[trigger] new_ids[b],
                    ) by {
                        let a0 = if a < at { a } else { a - 1 };
                        let b0 = if b < at { b } else { b - 1 };
                        if a != at && b != at {
                            assert(id_before(old_ids[a0], old_ids[b0]));
                        } else if b == at {
                            assert(id_before(old_vec[a0]@, record.id@));
                        } else {
                            assert(id_before(record.id@, old_vec[b0]@));
                        }
                    }
                    assert forall|p: int| 0 <= p < ids.len() implies entry_from(
                        rv,
                        #[trigger] src[p],
                        ids[p]@,
                        packages[p]@,
                        i + 1,
                    ) by {
                        if p != at {
                            let p0 = if p < at { p } else { p - 1 };
                            assert(entry_from(rv, old_src[p0], old_ids[p0], old_packages[p0], i as int));
                            assert(new_ids[p] == old_ids[p0]);
                            assert(new_packages[p] == old_packages[p0]);
                            assert(old_ids.contains(old_ids[p0]));
                        } else {
                            assert(new_ids[p] == record.id@);
                            assert(new_packages[p] == package@);
                        }
                    }
                    assert forall|k: int| 0 <= k < i + 1 implies new_ids.contains((#[trigger] rv[k]).id) by {
                        if k == i {
                            assert(new_ids[at as int] == rv[k].id);
                        } else {
                            let q = choose|q: int| 0 <= q < old_ids.len() && old_ids[q] == rv[k].id;
                            let q1 = if q < at { q } else { q + 1 };
                            assert(new_ids[q1] == rv[k].id);
                        }
                    }
                }
            },
        }
        i = i + 1;
    }
    (ids, packages, Ghost(src))
}

/// Entry `j2` of node `i2` comes before entry `j` of node `i`.
spec fn pair_before(nodes: Seq<ResolveNodeView>, i: int, j: int, i2: int, j2: int) -> bool {
    &&& 0 <= i2 < nodes.len()
    &&& 0 <= j2 < nodes[i2].deps.len()
    &&& i2 < i || (i2 == i && j2 < j)
}

/// `ids` holds node `i` and its dependency `j`.
spec fn holds_pair(ids: Seq<Seq<char>>, nodes: Seq<ResolveNodeView>, i: int, j: int) -> bool {
    ids.contains(nodes[i].id) && ids.contains(nodes[i].deps[j])
}

/// Turns the resolved graph round: for each package the indices of the
/// packages that depend on it. Gives nothing where a node names a package
/// that `ids` does not hold.
fn link(ids: &Vec<PackageId>, nodes: &Vec<ResolveNode>) -> (r: Option<Vec<Vec<usize>>>)
    requires
        strictly_increasing(ids.deep_view()),
    ensures
        match r {
            Some(rows) => {
                &&& rows.len() == ids.len()
                &&& forall|u: int, k: int|
                    0 <= u < rows.len() && 0 <= k < rows[u].len() ==> (#[trigger] rows[u][k])
                        < ids.len()
                &&& forall|i: int, j: int|
                    0 <= i < nodes.len() && 0 <= j < nodes.deep_view()[i].deps.len()
                        ==> #[trigger] holds_pair(ids.deep_view(), nodes.deep_view(), i, j)
                &&& forall|a: Seq<char>, b: Seq<char>|
                    edges_of(ids@, rows@).contains((a, b)) <==> node_dependency(
                        nodes.deep_view(),
                        a,
                        b,
                    )
            },
            None => exists|i: int, j: int|
                0 <= i < nodes.len() && 0 <= j < nodes.deep_view()[i].deps.len()
                    && !#[trigger] holds_pair(ids.deep_view(), nodes.deep_view(), i, j),
        },
{
    let ghost nv = nodes.deep_view();
    let ghost idv = ids.deep_view();
    let n = ids.len();
    let mut rows: Vec<Vec<usize>> = Vec::new();
    let mut u: usize = 0;
    while u < n
        invariant
            u <= n,
            rows.len() == u,
            forall|w: int| 0 <= w < u ==> (#[trigger] rows[w]).len() == 0,
        decreases n - u,
    {
        rows.push(Vec::new());
        u = u + 1;
    }
    let ghost mut origin: Seq<Seq<(int, int)>> = Seq::new(n as nat, |w: int| Seq::empty());
    let mut i: usize = 0;
    let mut j: usize = 0;
    while i < nodes.len()
        invariant
            nv == nodes.deep_view(),
            idv == ids.deep_view(),
            n == ids.len(),
            strictly_increasing(idv),
            i <= nodes.len(),
            i < nodes.len() ==> j <= nodes[i as int].deps.len(),
            i == nodes.len() ==> j == 0,
            rows.len() == n,
            origin.len() == n,
            forall|w: int| 0 <= w < n ==> (#[trigger] origin[w]).len() == rows[w].len(),
            forall|w: int, k: int|
                0 <= w < n && 0 <= k < rows[w].len() ==> (#[trigger] rows[w][k]) < n,
            forall|w: int, k: int|
                0 <= w < n && 0 <= k < rows[w].len() ==> pair_before(
                    nv,
                    i as int,
                    j as int,
                    (#[trigger] origin[w][k]).0,
                    origin[w][k].1,
                ) && node_pair(nv, origin[w][k].0, origin[w][k].1) == edge_at(ids@, rows@, w, k),
            forall|i2: int, j2: int|
                pair_before(nv, i as int, j as int, i2, j2) ==> #[trigger] holds_pair(idv, nv, i2, j2),
            forall|i2: int, j2: int|
                pair_before(nv, i as int, j as int, i2, j2) ==> edges_of(ids@, rows@).contains(
                    #[trigger] node_pair(nv, i2, j2),
                ),
        decreases nodes.len() - i, (if i < nodes.len() { nodes[i as int].deps.len() - j } else { 0 }),
    {
        let node = &nodes[i];
        assert(nv[i as int] == node@);
        if j < node.deps.len() {
            assert(nv[i as int].deps[j as int] == node.deps[j as int]@);
            let dependency = match search(ids, node.deps[j].as_str()) {
                Ok(at) => at,
                Err(_) => {
                    assert(!holds_pair(idv, nv, i as int, j as int));
                    return None;
                },
            };
            let dependent = match search(ids, node.id.as_str()) {
                Ok(at) => at,
                Err(_) => {
                    assert(!holds_pair(idv, nv, i as int, j as int));
                    return None;
                },
            };
            let ghost old_rows = rows@;
            let ghost old_origin = origin;
            rows[dependency].push(dependent);
            proof {
                origin = origin.update(
                    dependency as int,
                    origin[dependency as int].push((i as int, j as int)),
                );
                let last = old_rows[dependency as int].len() as int;
                assert forall|w: int, k: int| 0 <= w < n && 0 <= k < rows[w].len() implies pair_before(
                    nv,
                    i as int,
                    j + 1,
                    (#[trigger] origin[w][k]).0,
                    origin[w][k].1,
                ) && node_pair(nv, origin[w][k].0, origin[w][k].1) == edge_at(ids@, rows@, w, k) by {
                    if w == dependency && k == last {
                        assert(idv[dependency as int] == nv[i as int].deps[j as int]);
                        assert(idv[dependent as int] == nv[i as int].id);
                    } else {
                        assert(origin[w][k] == old_origin[w][k]);
                        assert(rows[w][k] == old_rows[w][k]);
                        assert(edge_at(ids@, rows@, w, k) == edge_at(ids@, old_rows, w, k));
                    }
                }
                assert forall|w: int, k: int| 0 <= w < n && 0 <= k < rows[w].len() implies (
                #[trigger] rows[w][k]) < n by {
                    if !(w == dependency && k == last) {
                        assert(rows[w][k] == old_rows[w][k]);
                    }
                }
                assert forall|i2: int, j2: int| pair_before(nv, i as int, j + 1, i2, j2) implies edges_of(
                    ids@,
                    rows@,
                ).contains(#[trigger] node_pair(nv, i2, j2)) by {
                    if i2 == i && j2 == j {
                        assert(edge_at(ids@, rows@, dependency as int, last) == node_pair(nv, i2, j2));
                    } else {
                        assert(pair_before(nv, i as int, j as int, i2, j2));
                        assert(edges_of(ids@, old_rows).contains(node_pair(nv, i2, j2)));
                        let (w, k) = choose|w: int, k: int|
                            0 <= w < old_rows.len() && 0 <= k < old_rows[w].len() && #[trigger] edge_at(
                                ids@,
                                old_rows,
                                w,
                                k,
                            ) == node_pair(nv, i2, j2);
                        assert(rows[w][k] == old_rows[w][k]);
                        assert(edge_at(ids@, rows@, w, k) == node_pair(nv, i2, j2));
                    }
                }
                assert forall|i2: int, j2: int|
                    pair_before(nv, i as int, j + 1, i2, j2) implies #[trigger] holds_pair(
                    idv,
                    nv,
                    i2,
                    j2,
                ) by {
                    if i2 == i && j2 == j {
                        assert(idv[dependency as int] == nv[i2].deps[j2]);
                        assert(idv[dependent as int] == nv[i2].id);
                    } else {
                        assert(pair_before(nv, i as int, j as int, i2, j2));
                    }
                }
            }
            j = j + 1;
        } else {
            proof {
                assert(nv[i as int].deps.len() == node.deps.len());
                assert forall|i2: int, j2: int|
                    pair_before(nv, i + 1, 0, i2, j2) implies #[trigger] holds_pair(idv, nv, i2, j2) by {
                    assert(pair_before(nv, i as int, j as int, i2, j2));
                }
                assert forall|i2: int, j2: int| pair_before(nv, i + 1, 0, i2, j2) implies edges_of(
                    ids@,
                    rows@,
                ).contains(#[trigger] node_pair(nv, i2, j2)) by {
                    assert(pair_before(nv, i as int, j as int, i2, j2));
                }
            }
            i = i + 1;
            j = 0;
        }
    }
    proof {
        assert forall|i2: int, j2: int|
            0 <= i2 < nodes.len() && 0 <= j2 < nv[i2].deps.len() implies #[trigger] holds_pair(
            idv,
            nv,
            i2,
            j2,
        ) by {
            assert(pair_before(nv, i as int, j as int, i2, j2));
        }
        assert forall|a: Seq<char>, b: Seq<char>|
            edges_of(ids@, rows@).contains((a, b)) <==> node_dependency(nv, a, b) by {
            if edges_of(ids@, rows@).contains((a, b)) {
                let (w, k) = choose|w: int, k: int|
                    0 <= w < rows.len() && 0 <= k < rows[w].len() && #[trigger] edge_at(ids@, rows@, w, k)
                        == (a, b);
                let o = origin[w][k];
                assert(node_pair(nv, o.0, o.1) == (a, b));
            }
            if node_dependency(nv, a, b) {
                let (i2, j2) = choose|i2: int, j2: int|
                    0 <= i2 < nv.len() && 0 <= j2 < nv[i2].deps.len() && #[trigger] node_pair(nv, i2, j2)
                        == (a, b);
                assert(pair_before(nv, i as int, j as int, i2, j2));
            }
        }
    }
    Some(rows)
}

fn to_package_ids(strings: &Vec<String>) -> (r: Vec<PackageId>)
    ensures
        r.deep_view() == strings.deep_view(),
{
    let mut out: Vec<PackageId> = Vec::new();
    let mut i: usize = 0;
    while i < strings.len()
        invariant
            i <= strings.len(),
            out.len() == i,
            forall|j: int| 0 <= j < i ==> (#[trigger] out[j])@ == strings[j]@,
        decreases strings.len() - i,
    {
        out.push(PackageId::new(strings[i].as_str()));
        i = i + 1;
    }
    assert(out.deep_view() =~= strings.deep_view());
    out
}

/// Why a metadata document gives no package graph.
#[derive(Debug)]
pub enum MetadataError {
    /// The text is not a well-formed document, or its resolved graph names
    /// a package that its package list lacks. Carries a message.
    Parse(String),
    /// The document has no resolved dependency graph.
    MissingResolution,
}

/// What building a graph from `document` has to give.
pub open spec fn built_from(document: MetadataDocumentView, r: Result<Metadata, MetadataError>) -> bool {
    match r {
        Ok(graph) => {
            &&& document.resolve is Some
            &&& document.closed()
            &&& graph@.wf()
            &&& graph@.represents(document)
        },
        Err(MetadataError::MissingResolution) => document.resolve is None,
        Err(MetadataError::Parse(_)) => document.resolve is Some && !document.closed(),
    }
}

/// The package graph of the current project.
pub struct Metadata {
    /// The identities of the packages, strictly increasing.
    ids: Vec<PackageId>,
    /// `packages[i]` is the package with the identity `ids[i]`.
    packages: Vec<Package>,
    /// The packages of the current workspace.
    workspace_members: Vec<PackageId>,
    /// Workspace root path.
    workspace_root: String,
    /// `reverse_deps[i]` holds the indices of the packages that depend
    /// directly on the package `ids[i]`.
    reverse_deps: Vec<Vec<usize>>,
    /// The build-output directory of the project.
    target_directory: String,
}

impl View for Metadata {
    type V = GraphView;

    closed spec fn view(&self) -> GraphView {
        GraphView {
            ids: self.ids.deep_view(),
            packages: self.packages.deep_view(),
            workspace_members: self.workspace_members.deep_view(),
            workspace_root: self.workspace_root@,
            target_directory: self.target_directory@,
            edges: edges_of(self.ids@, self.reverse_deps@),
        }
    }
}

impl Metadata {
    #[verifier::type_invariant]
    spec fn inv(&self) -> bool {
        &&& self.ids.len() == self.packages.len()
        &&& self.ids.len() == self.reverse_deps.len()
        &&& strictly_increasing(self.ids.deep_view())
        &&& forall|u: int, k: int|
            0 <= u < self.reverse_deps.len() && 0 <= k < self.reverse_deps[u].len() ==> (
            #[trigger] self.reverse_deps[u][k]) < self.ids.len()
    }

    proof fn lemma_inv_gives_wf(&self)
        requires
            self.inv(),
        ensures
            self@.wf(),
    {
        assert forall|a: Seq<char>, b: Seq<char>| #[trigger]
            self@.edges.contains((a, b)) implies self@.ids.contains(a) && self@.ids.contains(b) by {
            let (u, k) = choose|u: int, k: int|
                0 <= u < self.reverse_deps.len() && 0 <= k < self.reverse_deps[u].len()
                    && #[trigger] edge_at(self.ids@, self.reverse_deps@, u, k) == (a, b);
            let v = self.reverse_deps[u][k] as int;
            assert(self.ids.deep_view()[u] == a);
            assert(self.ids.deep_view()[v] == b);
        }
    }

    /// Builds the graph that a metadata document describes.
    ///
    /// Fails with `MissingResolution` where the document has no resolved
    /// dependency graph, and with `Parse` where that graph names a package
    /// that the package list lacks; on every other document it succeeds.
    pub fn from_document(document: &MetadataDocument) -> (r: Result<Metadata, MetadataError>)
        ensures
            built_from(document@, r),
    {
        let (ids, packages, Ghost(src)) = index_packages(&document.packages);
        let ghost rv = document@.packages;
        let ghost idv = ids.deep_view();
        let nodes = match &document.resolve {
            Some(nodes) => nodes,
            None => {
                return Err(MetadataError::MissingResolution);
            },
        };
        let ghost nv = nodes.deep_view();
        assert(document@.nodes() == nv);
        proof {
            assert forall|id: Seq<char>| idv.contains(id) <==> document@.has_package(id) by {
                if idv.contains(id) {
                    let p = choose|p: int| 0 <= p < idv.len() && idv[p] == id;
                    assert(entry_from(rv, src[p], ids[p]@, packages[p]@, rv.len() as int));
                }
                if document@.has_package(id) {
                    let k = choose|k: int| 0 <= k < rv.len() && (#[trigger] rv[k]).id == id;
                    assert(idv.contains(rv[k].id));
                }
            }
        }
        let rows = match link(&ids, nodes) {
            Some(rows) => rows,
            None => {
                proof {
                    let (i, j) = choose|i: int, j: int|
                        0 <= i < nv.len() && 0 <= j < nv[i].deps.len() && !#[trigger] holds_pair(idv, nv, i, j);
                    assert(!document@.lists_pair(i, j));
                }
                return Err(MetadataError::Parse("the resolved graph names an unknown package".to_owned()));
            },
        };
        let graph = Metadata {
            ids,
            packages,
            workspace_members: to_package_ids(&document.workspace_members),
            workspace_root: document.workspace_root.clone(),
            reverse_deps: rows,
            target_directory: document.target_directory.clone(),
        };
        proof {
            graph.lemma_inv_gives_wf();
            assert forall|i: int, j: int|
                0 <= i < document@.nodes().len() && 0 <= j < document@.nodes()[i].deps.len() implies #[trigger] document@.lists_pair(
                i,
                j,
            ) by {
                assert(holds_pair(idv, nv, i, j));
            }
            lemma_increasing_is_duplicate_free(idv);
            assert forall|k: int| #[trigger] document@.is_last_record(k) implies graph@.package_of(
                rv[k].id,
            ) == package_of_record(rv[k]) by {
                assert(idv.contains(rv[k].id));
                let p = choose|p: int| 0 <= p < idv.len() && idv[p] == rv[k].id;
                assert(graph@.ids.index_of(rv[k].id) == p);
                assert(entry_from(rv, src[p], graph.ids[p]@, graph.packages[p]@, rv.len() as int));
                if src[p] < k {
                    assert(rv[k].id != idv[p]);
                } else if k < src[p] {
                    assert(rv[src[p]].id != rv[k].id);
                }
            }
            assert forall|a: Seq<char>, b: Seq<char>| #[trigger]
                graph@.has_edge(a, b) <==> document@.has_dependency(a, b) by {
                assert(graph@.has_edge(a, b) == edges_of(graph.ids@, graph.reverse_deps@).contains((a, b)));
            }
        }
        Ok(graph)
    }

    /// Builds the graph from the JSON text of the dependency-resolution
    /// tool: `Parse` where the text holds no document, else what
    /// `from_document` makes of the document.
    pub fn from_str(s: &str) -> (r: Result<Metadata, MetadataError>)
        ensures
            match parsed_metadata(s@) {
                Some(document) => built_from(document, r),
                None => r matches Err(MetadataError::Parse(_)),
            },
    {
        match MetadataDocument::from_json(s) {
            Ok(document) => Metadata::from_document(&document),
            Err(message) => Err(MetadataError::Parse(message)),
        }
    }

    /// The index of the package with the identity `id`, if there is one.
    fn index_of(&self, id: &PackageId) -> (r: Option<usize>)
        ensures
            match r {
                Some(i) => i < self.ids.len() && self.ids[i as int]@ == id@,
                None => !self@.ids.contains(id@),
            },
    {
        proof {
            use_type_invariant(self);
        }
        match search(&self.ids, id.as_str()) {
            Ok(i) => Some(i),
            Err(_) => None,
        }
    }

    /// The package with the identity `id`, if the graph has one.
    pub fn package(&self, id: &PackageId) -> (r: Option<&Package>)
        ensures
            self@.wf(),
            r is Some <==> self@.ids.contains(id@),
            r is Some ==> r->Some_0@ == self@.package_of(id@),
    {
        proof {
            use_type_invariant(self);
            self.lemma_inv_gives_wf();
        }
        match self.index_of(id) {
            Some(i) => {
                proof {
                    lemma_increasing_is_duplicate_free(self@.ids);
                    assert(self@.ids[i as int] == id@);
                    assert(self@.ids.index_of(id@) == i);
                }
                Some(&self.packages[i])
            },
            None => None,
        }
    }

    /// The packages with their identities, in the order of identities.
    pub fn entries(&self) -> (r: Vec<(&PackageId, &Package)>)
        ensures
            self@.wf(),
            r.len() == self@.ids.len(),
            forall|i: int|
                0 <= i < r.len() ==> (#[trigger] r[i]).0@ == self@.ids[i] && r[i].1@
                    == self@.packages[i],
    {
        proof {
            use_type_invariant(self);
            self.lemma_inv_gives_wf();
        }
        let mut out: Vec<(&PackageId, &Package)> = Vec::new();
        let mut i: usize = 0;
        while i < self.ids.len()
            invariant
                i <= self.ids.len(),
                self.ids.len() == self.packages.len(),
                out.len() == i,
                forall|j: int|
                    0 <= j < i ==> (#[trigger] out[j]).0@ == self.ids[j]@ && out[j].1@
                        == self.packages[j]@,
            decreases self.ids.len() - i,
        {
            out.push((&self.ids[i], &self.packages[i]));
            i = i + 1;
        }
        out
    }

    /// Marks every package that depends, directly or not, on the package at
    /// index `start`. The search keeps a worklist and never enters a package
    /// twice, so it ends on a graph with cycles too.
    fn mark_dependents(&self, start: usize) -> (visited: Vec<bool>)
        requires
            start < self.ids.len(),
        ensures
            visited.len() == self.ids.len(),
            forall|v: int|
                0 <= v < visited.len() ==> (#[trigger] visited[v] <==> self@.reaches(
                    self.ids[start as int]@,
                    self.ids[v]@,
                )),
    {
        proof {
            use_type_invariant(self);
        }
        let n = self.ids.len();
        let ghost from = self.ids[start as int]@;
        let mut visited: Vec<bool> = vec![false; n];
        let mut stack: Vec<usize> = Vec::new();
        stack.push(start);
        let ghost mut done: Set<int> = Set::empty();
        assert(stack[0] == start);
        while stack.len() > 0
            invariant
                self.inv(),
                n == self.ids.len(),
                start < n,
                from == self.ids[start as int]@,
                visited.len() == n,
                forall|j: int| 0 <= j < stack.len() ==> #[trigger] stack[j] < n,
                forall|j: int|
                    0 <= j < stack.len() ==> (#[trigger] stack[j]) == start || visited[stack[j] as int],
                forall|v: int| 0 <= v < n && #[trigger] visited[v] ==> self@.reaches(from, self.ids[v]@),
                forall|w: int|
                    0 <= w < n && (w == start || #[trigger] visited[w]) ==> done.contains(w) || exists|
                        j: int,
                    | 0 <= j < stack.len() && #[trigger] stack[j] == w,
                done.contains(start as int) || exists|j: int|
                    0 <= j < stack.len() && #[trigger] stack[j] == start,
                forall|u: int, k: int|
                    done.contains(u) && 0 <= u < n && 0 <= k < self.reverse_deps[u].len()
                        ==> visited[(#[trigger] self.reverse_deps[u][k]) as int],
            decreases unmarked(visited@) + stack.len(),
        {
            let ghost stack_before = stack@;
            let ghost visited_before = visited@;
            let u = stack.pop().unwrap();
            let row = &self.reverse_deps[u];
            let mut k: usize = 0;
            proof {
                assert forall|w: int|
                    0 <= w < n && (w == start || #[trigger] visited[w]) implies done.contains(w) || w
                    == u || exists|j: int| 0 <= j < stack.len() && #[trigger] stack[j] == w by {
                    if !done.contains(w) {
                        let j = choose|j: int| 0 <= j < stack_before.len() && #[trigger] stack_before[j] == w;
                        if j < stack.len() {
                            assert(stack[j] == w);
                        }
                    }
                }
                if !done.contains(start as int) {
                    let j = choose|j: int| 0 <= j < stack_before.len() && #[trigger] stack_before[j] == start;
                    if j < stack.len() {
                        assert(stack[j] == start);
                    }
                }
                assert(stack_before[stack_before.len() - 1] == u);
            }
            while k < row.len()
                invariant
                    self.inv(),
                    n == self.ids.len(),
                    start < n,
                    u < n,
                    from == self.ids[start as int]@,
                    row == &self.reverse_deps[u as int],
                    k <= row.len(),
                    visited.len() == n,
                    u == start || visited[u as int],
                    forall|j: int| 0 <= j < stack.len() ==> #[trigger] stack[j] < n,
                    forall|j: int|
                        0 <= j < stack.len() ==> (#[trigger] stack[j]) == start || visited[stack[j] as int],
                    forall|v: int|
                        0 <= v < n && #[trigger] visited[v] ==> self@.reaches(from, self.ids[v]@),
                    forall|w: int|
                        0 <= w < n && (w == start || #[trigger] visited[w]) ==> done.contains(w) || w
                            == u || exists|j: int| 0 <= j < stack.len() && #[trigger] stack[j] == w,
                    done.contains(start as int) || start == u || exists|j: int|
                        0 <= j < stack.len() && #[trigger] stack[j] == start,
                    forall|u2: int, k2: int|
                        done.contains(u2) && 0 <= u2 < n && 0 <= k2 < self.reverse_deps[u2].len()
                            ==> visited[(#[trigger] self.reverse_deps[u2][k2]) as int],
                    forall|k2: int| 0 <= k2 < k ==> visited[(#[trigger] row[k2]) as int],
                    unmarked(visited@) + stack.len() + 1 == unmarked(visited_before) + stack_before.len(),
                decreases row.len() - k,
            {
                let v = row[k];
                assert(v == self.reverse_deps[u as int][k as int]);
                if !visited[v] {
                    proof {
                        lemma_unmarked_after_mark(visited@, v as int);
                        assert(edge_at(self.ids@, self.reverse_deps@, u as int, k as int) == (self.ids[u as int]@, self.ids[v as int]@));
                        assert(self@.has_edge(self.ids[u as int]@, self.ids[v as int]@));
                        if u == start {
                            self@.lemma_edge_reaches(from, self.ids[v as int]@);
                        } else {
                            self@.lemma_reaches_then_edge(from, self.ids[u as int]@, self.ids[v as int]@);
                        }
                    }
                    let ghost stack_mid = stack@;
                    visited.set(v, true);
                    stack.push(v);
                    proof {
                        assert forall|w: int|
                            0 <= w < n && (w == start || #[trigger] visited[w]) implies done.contains(w)
                            || w == u || exists|j: int|
                            0 <= j < stack.len() && #[trigger] stack[j] == w by {
                            if w == v {
                                assert(stack[stack.len() - 1] == w);
                            } else if !done.contains(w) && w != u {
                                let j = choose|j: int| 0 <= j < stack_mid.len() && #[trigger] stack_mid[j] == w;
                                assert(stack[j] == w);
                            }
                        }
                        if !done.contains(start as int) && start != u {
                            let j = choose|j: int| 0 <= j < stack_mid.len() && #[trigger] stack_mid[j] == start;
                            assert(stack[j] == start);
                        }
                    }
                }
                k = k + 1;
            }
            proof {
                done = done.insert(u as int);
            }
        }
        proof {
            let marked = Set::new(|d: Seq<char>| exists|v: int| 0 <= v < n && #[trigger] visited[v] && self.ids[v]@ == d);
            lemma_increasing_is_duplicate_free(self.ids.deep_view());
            assert forall|a: Seq<char>, b: Seq<char>|
                (a == from || marked.contains(a)) && #[trigger] self@.has_edge(a, b) implies marked.contains(b) by {
                let (u, k) = choose|u: int, k: int|
                    0 <= u < self.reverse_deps.len() && 0 <= k < self.reverse_deps[u].len()
                        && #[trigger] edge_at(self.ids@, self.reverse_deps@, u, k) == (a, b);
                let v = self.reverse_deps[u][k] as int;
                if a == from {
                    assert(self.ids.deep_view()[u] == self.ids.deep_view()[start as int]);
                    assert(u == start);
                } else {
                    let w = choose|w: int| 0 <= w < n && #[trigger] visited[w] && self.ids[w]@ == a;
                    assert(self.ids.deep_view()[u] == self.ids.deep_view()[w]);
                    assert(u == w);
                }
                assert(done.contains(u));
                assert(visited[v]);
            }
            self@.lemma_closed_set_holds_dependents(from, marked);
            assert forall|v: int| 0 <= v < visited.len() implies (#[trigger] visited[v] <==> self@.reaches(
                from,
                self.ids[v]@,
            )) by {
                if self@.reaches(from, self.ids[v]@) {
                    assert(marked.contains(self.ids[v]@));
                    let w = choose|w: int| 0 <= w < n && #[trigger] visited[w] && self.ids[w]@ == self.ids[v]@;
                    assert(self.ids.deep_view()[w] == self.ids.deep_view()[v]);
                    assert(w == v);
                }
            }
        }
        visited
    }

    /// Gets all dependents (direct and transitive) of `id`, in the order of
    /// identities. An identity that the graph does not hold has none.
    pub fn all_dependents_of(&self, id: &PackageId) -> (r: Vec<PackageId>)
        ensures
            self@.wf(),
            r.deep_view() == self@.dependents_of(id@),
    {
        proof {
            use_type_invariant(self);
            self.lemma_inv_gives_wf();
        }
        let ghost test = self@.is_dependent_of(id@);
        let mut out: Vec<PackageId> = Vec::new();
        match self.index_of(id) {
            None => {
                proof {
                    assert forall|i: int| 0 <= i < self@.ids.len() implies !test(#[trigger] self@.ids[i]) by {
                        if self@.reaches(id@, self@.ids[i]) {
                            self@.lemma_reaches_within(id@, self@.ids[i]);
                        }
                    }
                    assert(self@.ids.all(|d: Seq<char>| !test(d)));
                    self@.ids.lemma_all_neg_filter_empty(test);
                    assert(out.deep_view() =~= self@.ids.filter(test));
                }
            },
            Some(start) => {
                let visited = self.mark_dependents(start);
                let mut i: usize = 0;
                proof {
                    assert(self@.ids.take(0) =~= Seq::empty());
                    reveal(Seq::filter);
                    assert(out.deep_view() =~= self@.ids.take(0).filter(test));
                }
                while i < self.ids.len()
                    invariant
                        i <= self.ids.len(),
                        visited.len() == self.ids.len(),
                        start < self.ids.len(),
                        self.ids[start as int]@ == id@,
                        test == self@.is_dependent_of(id@),
                        forall|v: int|
                            0 <= v < visited.len() ==> (#[trigger] visited[v] <==> self@.reaches(
                                self.ids[start as int]@,
                                self.ids[v]@,
                            )),
                        out.deep_view() == self@.ids.take(i as int).filter(test),
                    decreases self.ids.len() - i,
                {
                    let ghost before = out.deep_view();
                    proof {
                        assert(self@.ids.take(i + 1) =~= self@.ids.take(i as int).push(self@.ids[i as int]));
                        self@.ids.take(i as int).lemma_filter_push(self@.ids[i as int], test);
                        assert(self@.ids[i as int] == self.ids[i as int]@);
                    }
                    if visited[i] {
                        out.push(self.ids[i].clone());
                        assert(out.deep_view() =~= before.push(self.ids[i as int]@));
                    }
                    i = i + 1;
                }
                proof {
                    assert(self@.ids.take(self.ids.len() as int) =~= self@.ids);
                }
            },
        }
        out
    }

    /// Gets the dependents (direct and transitive) of every package named
    /// `name`, in the order of identities. Packages are matched by name
    /// alone, so that all copies of a package count.
    pub fn dependents_of_named(&self, name: &str) -> (r: Vec<PackageId>)
        ensures
            self@.wf(),
            r.deep_view() == self@.dependents_of_named(name@),
    {
        proof {
            use_type_invariant(self);
            self.lemma_inv_gives_wf();
        }
        let n = self.ids.len();
        let wanted = name.to_owned();
        let mut marks: Vec<bool> = vec![false; n];
        let mut m: usize = 0;
        while m < n
            invariant
                self.inv(),
                n == self.ids.len(),
                m <= n,
                marks.len() == n,
                wanted@ == name@,
                forall|v: int|
                    0 <= v < n ==> (#[trigger] marks[v] <==> exists|i: int|
                        0 <= i < m && self.packages[i]@.name == name@ && self@.reaches(
                            #[trigger] self.ids[i]@,
                            self.ids[v]@,
                        )),
            decreases n - m,
        {
            if self.packages[m].name == wanted {
                let visited = self.mark_dependents(m);
                let ghost before = marks@;
                let mut v: usize = 0;
                while v < n
                    invariant
                        v <= n,
                        marks.len() == n,
                        visited.len() == n,
                        before.len() == n,
                        forall|w: int| 0 <= w < v ==> #[trigger] marks[w] == (before[w] || visited[w]),
                        forall|w: int| v <= w < n ==> #[trigger] marks[w] == before[w],
                    decreases n - v,
                {
                    if visited[v] {
                        marks.set(v, true);
                    }
                    v = v + 1;
                }
                proof {
                    assert forall|v: int| 0 <= v < n implies (#[trigger] marks[v] <==> exists|i: int|
                        0 <= i < m + 1 && self.packages[i]@.name == name@ && self@.reaches(
                            #[trigger] self.ids[i]@,
                            self.ids[v]@,
                        )) by {
                        if marks[v] {
                            if before[v] {
                                let i = choose|i: int|
                                    0 <= i < m && self.packages[i]@.name == name@ && self@.reaches(
                                        #[trigger] self.ids[i]@,
                                        self.ids[v]@,
                                    );
                                assert(self@.reaches(self.ids[i]@, self.ids[v]@));
                            } else {
                                assert(visited[v]);
                                assert(self@.reaches(self.ids[m as int]@, self.ids[v]@));
                            }
                        } else {
                            assert(!before[v] && !visited[v]);
                        }
                    }
                }
            }
            m = m + 1;
        }
        let ghost test = self@.is_dependent_of_named(name@);
        let mut out: Vec<PackageId> = Vec::new();
        let mut i: usize = 0;
        proof {
            assert(self@.ids.take(0) =~= Seq::empty());
            reveal(Seq::filter);
            assert(out.deep_view() =~= self@.ids.take(0).filter(test));
            assert forall|v: int| 0 <= v < n implies (#[trigger] marks[v] <==> test(self@.ids[v])) by {
                if marks[v] {
                    let i = choose|i: int|
                        0 <= i < n && self.packages[i]@.name == name@ && self@.reaches(
                            #[trigger] self.ids[i]@,
                            self.ids[v]@,
                        );
                    assert(self@.packages[i].name == name@ && self@.reaches(self@.ids[i], self@.ids[v]));
                }
                if test(self@.ids[v]) {
                    let i = choose|i: int|
                        0 <= i < self@.ids.len() && self@.packages[i].name == name@ && self@.reaches(
                            #[trigger] self@.ids[i],
                            self@.ids[v],
                        );
                    assert(self.packages[i]@.name == name@ && self@.reaches(self.ids[i]@, self.ids[v]@));
                }
            }
        }
        while i < n
            invariant
                i <= n,
                n == self.ids.len(),
                marks.len() == n,
                test == self@.is_dependent_of_named(name@),
                forall|v: int| 0 <= v < n ==> (#[trigger] marks[v] <==> test(self@.ids[v])),
                out.deep_view() == self@.ids.take(i as int).filter(test),
            decreases n - i,
        {
            let ghost before = out.deep_view();
            proof {
                assert(self@.ids.take(i + 1) =~= self@.ids.take(i as int).push(self@.ids[i as int]));
                self@.ids.take(i as int).lemma_filter_push(self@.ids[i as int], test);
                assert(self@.ids[i as int] == self.ids[i as int]@);
            }
            if marks[i] {
                out.push(self.ids[i].clone());
                assert(out.deep_view() =~= before.push(self.ids[i as int]@));
            }
            i = i + 1;
        }
        proof {
            assert(self@.ids.take(n as int) =~= self@.ids);
        }
        out
    }

    /// The packages of the current workspace.
    pub fn workspace_members(&self) -> (r: &[PackageId])
        ensures
            r.deep_view() == self@.workspace_members,
    {
        self.workspace_members.as_slice()
    }

    /// The root directory of the workspace.
    pub fn workspace_root(&self) -> (r: &str)
        ensures
            r@ == self@.workspace_root,
    {
        self.workspace_root.as_str()
    }

    /// The build-output directory.
    pub fn target_directory(&self) -> (r: &str)
        ensures
            r@ == self@.target_directory,
    {
        self.target_directory.as_str()
    }
}

} // verus!
