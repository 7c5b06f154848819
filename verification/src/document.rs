//! The metadata document of the dependency-resolution tool, as plain values.
//!
//! The document is JSON text. Reading it is left to `cargo_metadata` and
//! `serde_json`; this module declares what is taken on trust about them and
//! hands the rest of the library a document made of strings and vectors.

use crate::json::json_error_message;
use vstd::prelude::*;

verus! {

/// One package of the document: its identity, its name, and the source file
/// of each of its build targets.
#[derive(Debug)]
pub struct PackageRecord {
    pub id: String,
    pub name: String,
    pub src_paths: Vec<String>,
}

pub struct PackageRecordView {
    pub id: Seq<char>,
    pub name: Seq<char>,
    pub src_paths: Seq<Seq<char>>,
}

impl View for PackageRecord {
    type V = PackageRecordView;

    open spec fn view(&self) -> PackageRecordView {
        PackageRecordView {
            id: self.id@,
            name: self.name@,
            src_paths: self.src_paths.deep_view(),
        }
    }
}

impl DeepView for PackageRecord {
    type V = PackageRecordView;

    open spec fn deep_view(&self) -> PackageRecordView {
        self@
    }
}

/// One node of the resolved dependency graph: a package and the packages it
/// depends on.
#[derive(Debug)]
pub struct ResolveNode {
    pub id: String,
    pub deps: Vec<String>,
}

pub struct ResolveNodeView {
    pub id: Seq<char>,
    pub deps: Seq<Seq<char>>,
}

impl View for ResolveNode {
    type V = ResolveNodeView;

    open spec fn view(&self) -> ResolveNodeView {
        ResolveNodeView { id: self.id@, deps: self.deps.deep_view() }
    }
}

impl DeepView for ResolveNode {
    type V = ResolveNodeView;

    open spec fn deep_view(&self) -> ResolveNodeView {
        self@
    }
}

/// The whole document. `resolve` is absent when the tool could not resolve
/// the dependencies.
#[derive(Debug)]
pub struct MetadataDocument {
    pub packages: Vec<PackageRecord>,
    pub workspace_members: Vec<String>,
    pub workspace_root: String,
    pub target_directory: String,
    pub resolve: Option<Vec<ResolveNode>>,
}

pub struct MetadataDocumentView {
    pub packages: Seq<PackageRecordView>,
    pub workspace_members: Seq<Seq<char>>,
    pub workspace_root: Seq<char>,
    pub target_directory: Seq<char>,
    pub resolve: Option<Seq<ResolveNodeView>>,
}

impl View for MetadataDocument {
    type V = MetadataDocumentView;

    open spec fn view(&self) -> MetadataDocumentView {
        MetadataDocumentView {
            packages: self.packages.deep_view(),
            workspace_members: self.workspace_members.deep_view(),
            workspace_root: self.workspace_root@,
            target_directory: self.target_directory@,
            resolve: match self.resolve {
                Some(nodes) => Some(nodes.deep_view()),
                None => None,
            },
        }
    }
}

impl MetadataDocumentView {
    /// The document lists a package with the identity `id`.
    pub open spec fn has_package(self, id: Seq<char>) -> bool {
        exists|k: int| 0 <= k < self.packages.len() && (#[trigger] self.packages[k]).id == id
    }

    /// No later record of the package list has the identity of record `k`.
    pub open spec fn is_last_record(self, k: int) -> bool {
        &&& 0 <= k < self.packages.len()
        &&& forall|later: int|
            k < later < self.packages.len() ==> (#[trigger] self.packages[later]).id
                != self.packages[k].id
    }

    /// The nodes of the resolved dependency graph; none where it is absent.
    pub open spec fn nodes(self) -> Seq<ResolveNodeView> {
        match self.resolve {
            Some(nodes) => nodes,
            None => Seq::empty(),
        }
    }

    /// Some node of the resolved graph says that `dependent` depends on
    /// `dependency`.
    pub open spec fn has_dependency(self, dependency: Seq<char>, dependent: Seq<char>) -> bool {
        node_dependency(self.nodes(), dependency, dependent)
    }

    /// Node `i` and its dependency `j` are both in the package list.
    pub open spec fn lists_pair(self, i: int, j: int) -> bool {
        self.has_package(self.nodes()[i].id) && self.has_package(self.nodes()[i].deps[j])
    }

    /// Every package that the resolved graph names, as a dependent or as a
    /// dependency, is in the package list.
    pub open spec fn closed(self) -> bool {
        forall|i: int, j: int|
            0 <= i < self.nodes().len() && 0 <= j < self.nodes()[i].deps.len()
                ==> #[trigger] self.lists_pair(i, j)
    }
}

/// The pair (dependency, dependent) that entry `j` of node `i` stands for.
pub open spec fn node_pair(nodes: Seq<ResolveNodeView>, i: int, j: int) -> (Seq<char>, Seq<char>) {
    (nodes[i].deps[j], nodes[i].id)
}

/// Some node says that `dependent` depends on `dependency`.
pub open spec fn node_dependency(
    nodes: Seq<ResolveNodeView>,
    dependency: Seq<char>,
    dependent: Seq<char>,
) -> bool {
    exists|i: int, j: int|
        0 <= i < nodes.len() && 0 <= j < nodes[i].deps.len() && #[trigger] node_pair(nodes, i, j) == (
            dependency,
            dependent,
        )
}

/// What `serde_json::from_str` makes of a text when asked for a
/// `cargo_metadata::Metadata`: the packages, the workspace and the resolved
/// graph of the value it gives, or nothing where it gives an error.
pub uninterp spec fn parsed_metadata(text: Seq<char>) -> Option<MetadataDocumentView>;

/// `serde_json::from_str`, asked for a `cargo_metadata::Metadata`. Trusted:
/// whether it succeeds, and what it gives, depend on the text alone. Of what
/// it gives this takes, field by field and in their order: of each of the
/// `packages` its `id`, its `name` and the `src_path` of each of its
/// `targets`; the `workspace_members`; the `workspace_root`; the
/// `target_directory`; and of each of the `nodes` of `resolve` its `id` and
/// the `pkg` of each of its `deps`.
#[verifier::external_body]
fn parse_cargo_metadata(text: &str) -> (r: Result<MetadataDocument, serde_json::Error>)
    ensures
        r is Ok <==> parsed_metadata(text@) is Some,
        r is Ok ==> parsed_metadata(text@) == Some(r->Ok_0@),
{
    let m: cargo_metadata::Metadata = serde_json::from_str(text)?;
    Ok(MetadataDocument {
        packages: m.packages.into_iter().map(|p| PackageRecord {
            id: p.id.repr,
            name: p.name,
            src_paths: p.targets.into_iter().map(|t| t.src_path.into_string()).collect(),
        }).collect(),
        workspace_members: m.workspace_members.into_iter().map(|id| id.repr).collect(),
        workspace_root: m.workspace_root.into_string(),
        target_directory: m.target_directory.into_string(),
        resolve: m.resolve.map(|r| r.nodes.into_iter().map(|n| ResolveNode {
            id: n.id.repr,
            deps: n.deps.into_iter().map(|d| d.pkg.repr).collect(),
        }).collect()),
    })
}

impl MetadataDocument {
    /// Reads a document from the JSON text of the dependency-resolution
    /// tool. Fails, with the parser's message, exactly where the text holds
    /// no document.
    pub fn from_json(text: &str) -> (r: Result<MetadataDocument, String>)
        ensures
            r is Ok <==> parsed_metadata(text@) is Some,
            r is Ok ==> parsed_metadata(text@) == Some(r->Ok_0@),
    {
        match parse_cargo_metadata(text) {
            Ok(document) => Ok(document),
            Err(error) => Err(json_error_message(&error)),
        }
    }
}

} // verus!
