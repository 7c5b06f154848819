use sqlx_prepare::document::{MetadataDocument, PackageRecord, ResolveNode};
use sqlx_prepare::ident::{precedes, PackageId};
use sqlx_prepare::metadata::{Metadata, Package};
use sqlx_prepare::prepare::minimal_project_recompile_action;

fn record(id: &str, name: &str, paths: &[&str]) -> PackageRecord {
    PackageRecord {
        id: id.to_string(),
        name: name.to_string(),
        src_paths: paths.iter().map(|p| p.to_string()).collect(),
    }
}

fn node(id: &str, deps: &[&str]) -> ResolveNode {
    ResolveNode { id: id.to_string(), deps: deps.iter().map(|d| d.to_string()).collect() }
}

fn graph(packages: Vec<PackageRecord>, members: &[&str], nodes: Vec<ResolveNode>) -> Metadata {
    Metadata::from_document(&MetadataDocument {
        packages,
        workspace_members: members.iter().map(|m| m.to_string()).collect(),
        workspace_root: "/w".to_string(),
        target_directory: "/w/target".to_string(),
        resolve: Some(nodes),
    })
    .unwrap()
}

fn ids(names: &[&str]) -> Vec<PackageId> {
    names.iter().map(|n| PackageId::new(n)).collect()
}

#[test]
fn identities_are_ordered_by_their_bytes() {
    assert!(precedes("a", "b"));
    assert!(!precedes("b", "a"));
    assert!(!precedes("a", "a"));
    assert!(precedes("", "a"));
    assert!(!precedes("", ""));
    assert!(precedes("ab", "abc"));
    assert!(!precedes("abc", "ab"));
    assert!(precedes("Z", "a"));
    assert!(precedes("a 1.0.0", "a-b 1.0.0"));
    assert!(precedes("z", "\u{e9}"));
    assert!(precedes("\u{e9}", "\u{4e2d}"));
    for (a, b) in [("sqlx 0.5", "sqlx-macros 0.5"), ("b", "a"), ("x", "x")] {
        assert_eq!(precedes(a, b), a < b);
    }
}

#[test]
fn a_package_gives_its_name_and_paths() {
    let package = Package::new("demo".to_string(), vec!["src/lib.rs".to_string()]);
    assert_eq!(package.name(), "demo");
    assert_eq!(package.src_paths(), &["src/lib.rs".to_string()]);
}

#[test]
fn a_self_dependency_is_passed_through() {
    let metadata = graph(
        vec![record("a", "a", &[]), record("b", "b", &[])],
        &[],
        vec![node("a", &["a"]), node("b", &["a"])],
    );
    assert_eq!(metadata.all_dependents_of(&PackageId::new("a")), ids(&["a", "b"]));
    assert_eq!(metadata.all_dependents_of(&PackageId::new("b")), ids(&[]));
}

#[test]
fn a_package_does_not_depend_on_itself_without_an_edge() {
    let metadata = graph(
        vec![record("a", "a", &[]), record("b", "b", &[]), record("c", "c", &[])],
        &[],
        vec![node("b", &["a"]), node("c", &["b"])],
    );
    assert_eq!(metadata.all_dependents_of(&PackageId::new("a")), ids(&["b", "c"]));
    assert_eq!(metadata.all_dependents_of(&PackageId::new("b")), ids(&["c"]));
}

#[test]
fn a_diamond_lists_each_dependent_once() {
    let metadata = graph(
        vec![
            record("top", "top", &[]),
            record("left", "left", &[]),
            record("right", "right", &[]),
            record("base", "base", &[]),
        ],
        &[],
        vec![
            node("top", &["left", "right"]),
            node("left", &["base"]),
            node("right", &["base"]),
            node("left", &["base"]),
        ],
    );
    assert_eq!(
        metadata.all_dependents_of(&PackageId::new("base")),
        ids(&["left", "right", "top"])
    );
}

#[test]
fn all_packages_of_the_marker_name_count() {
    let metadata = graph(
        vec![
            record("macros registry", "sqlx-macros", &["r/lib.rs"]),
            record("macros vendored", "sqlx-macros", &["v/lib.rs"]),
            record("uses registry", "outside", &["o/lib.rs"]),
            record("uses vendored", "inside", &["i/lib.rs", "i/main.rs"]),
            record("uses none", "idle", &["n/lib.rs"]),
        ],
        &["uses vendored", "uses none"],
        vec![
            node("uses registry", &["macros registry"]),
            node("uses vendored", &["macros vendored"]),
        ],
    );
    assert_eq!(
        metadata.dependents_of_named("sqlx-macros"),
        ids(&["uses registry", "uses vendored"])
    );
    let action = minimal_project_recompile_action(&metadata, "sqlx-macros");
    assert_eq!(action.clean_packages, vec!["outside".to_string()]);
    assert_eq!(action.touch_paths, vec!["i/lib.rs".to_string(), "i/main.rs".to_string()]);
    assert!(metadata.dependents_of_named("idle").is_empty());
}

#[test]
fn the_plan_splits_the_dependents() {
    let metadata = graph(
        vec![
            record("m", "marker", &["m.rs"]),
            record("in1", "in1", &["in1.rs"]),
            record("in2", "in2", &[]),
            record("out1", "out1", &["out1.rs"]),
            record("out2", "out2", &["out2.rs"]),
        ],
        &["in2", "in1"],
        vec![
            node("out2", &["m"]),
            node("in2", &["out2"]),
            node("out1", &["in2"]),
            node("in1", &["out1"]),
        ],
    );
    let dependents = metadata.dependents_of_named("marker");
    assert_eq!(dependents, ids(&["in1", "in2", "out1", "out2"]));
    let action = minimal_project_recompile_action(&metadata, "marker");
    assert_eq!(action.clean_packages, vec!["out1".to_string(), "out2".to_string()]);
    assert_eq!(action.touch_paths, vec!["in1.rs".to_string()]);
}

#[test]
fn a_document_is_read_from_json() {
    let text = r#"{
        "packages": [{
            "name": "demo", "version": "0.1.0", "id": "demo 0.1.0 (path+file:///w/demo)",
            "dependencies": [], "features": {}, "manifest_path": "/w/demo/Cargo.toml",
            "targets": [
                {"name": "demo", "kind": ["lib"], "src_path": "/w/demo/src/lib.rs"},
                {"name": "tool", "kind": ["bin"], "src_path": "/w/demo/src/main.rs"}
            ]
        }],
        "workspace_members": ["demo 0.1.0 (path+file:///w/demo)"],
        "resolve": {"nodes": [{"id": "demo 0.1.0 (path+file:///w/demo)", "deps": [], "dependencies": []}], "root": null},
        "workspace_root": "/w",
        "target_directory": "/w/target",
        "version": 1
    }"#;
    let document = MetadataDocument::from_json(text).unwrap();
    assert_eq!(document.packages.len(), 1);
    assert_eq!(document.packages[0].id, "demo 0.1.0 (path+file:///w/demo)");
    assert_eq!(document.packages[0].name, "demo");
    assert_eq!(
        document.packages[0].src_paths,
        vec!["/w/demo/src/lib.rs".to_string(), "/w/demo/src/main.rs".to_string()]
    );
    assert_eq!(document.workspace_members, vec!["demo 0.1.0 (path+file:///w/demo)".to_string()]);
    assert_eq!(document.workspace_root, "/w");
    assert_eq!(document.target_directory, "/w/target");
    let nodes = document.resolve.unwrap();
    assert_eq!(nodes.len(), 1);
    assert_eq!(nodes[0].id, "demo 0.1.0 (path+file:///w/demo)");
    assert!(nodes[0].deps.is_empty());
    assert!(MetadataDocument::from_json("[]").is_err());
}

#[test]
fn a_node_without_dependencies_may_be_unknown() {
    let metadata = graph(vec![record("a", "a", &[])], &[], vec![node("ghost", &[])]);
    assert!(metadata.all_dependents_of(&PackageId::new("a")).is_empty());
}
