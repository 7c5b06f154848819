use sqlx_prepare::document::{MetadataDocument, PackageRecord, ResolveNode};
use sqlx_prepare::ident::PackageId;
use sqlx_prepare::metadata::{Metadata, MetadataError};
use sqlx_prepare::prepare::{minimal_project_recompile_action, ProjectRecompileAction};

fn package_json(id: &str, name: &str, src_paths: &[&str]) -> String {
    let mut targets = String::new();
    for (i, path) in src_paths.iter().enumerate() {
        if i > 0 {
            targets.push(',');
        }
        targets.push_str(&format!(
            "{{\"name\":\"{}\",\"kind\":[\"lib\"],\"src_path\":\"{}\"}}",
            name, path
        ));
    }
    format!(
        "{{\"name\":\"{}\",\"version\":\"0.1.0\",\"id\":\"{}\",\"dependencies\":[],\
         \"targets\":[{}],\"features\":{{}},\"manifest_path\":\"/tmp/Cargo.toml\"}}",
        name, id, targets
    )
}

fn node_json(id: &str, deps: &[&str]) -> String {
    let mut entries = String::new();
    let mut plain = String::new();
    for (i, dep) in deps.iter().enumerate() {
        if i > 0 {
            entries.push(',');
            plain.push(',');
        }
        entries.push_str(&format!("{{\"name\":\"dep\",\"pkg\":\"{}\"}}", dep));
        plain.push_str(&format!("\"{}\"", dep));
    }
    format!(
        "{{\"id\":\"{}\",\"deps\":[{}],\"dependencies\":[{}]}}",
        id, entries, plain
    )
}

fn metadata_json(packages: &[String], members: &[&str], nodes: Option<&[String]>) -> String {
    let members: Vec<String> = members.iter().map(|m| format!("\"{}\"", m)).collect();
    let resolve = match nodes {
        Some(nodes) => format!("{{\"nodes\":[{}],\"root\":null}}", nodes.join(",")),
        None => "null".to_string(),
    };
    format!(
        "{{\"packages\":[{}],\"workspace_members\":[{}],\"resolve\":{},\
         \"workspace_root\":\"/home/user/problematic/workspace\",\
         \"target_directory\":\"/home/user/problematic/workspace/target\",\"version\":1}}",
        packages.join(","),
        members.join(","),
        resolve
    )
}

const A: &str = "a_in_workspace_lib 0.1.0 (path+file:///home/user/problematic/workspace/a_in_workspace_lib)";
const B: &str = "b_in_workspace_lib 0.1.0 (path+file:///home/user/problematic/workspace/b_in_workspace_lib)";
const C: &str = "c_in_workspace_bin 0.1.0 (path+file:///home/user/problematic/workspace/c_in_workspace_bin)";
const SQLX: &str = "sqlx 0.5.1 (registry+https://github.com/rust-lang/crates.io-index)";
const MACROS: &str = "sqlx-macros 0.5.1 (registry+https://github.com/rust-lang/crates.io-index)";
const SERDE: &str = "serde 1.0.0 (registry+https://github.com/rust-lang/crates.io-index)";

fn sample_metadata() -> String {
    let packages = vec![
        package_json(SQLX, "sqlx", &["/home/user/.cargo/registry/src/sqlx-0.5.1/src/lib.rs"]),
        package_json(
            C,
            "c_in_workspace_bin",
            &["/home/user/problematic/workspace/c_in_workspace_bin/src/main.rs"],
        ),
        package_json(
            A,
            "a_in_workspace_lib",
            &["/home/user/problematic/workspace/a_in_workspace_lib/src/lib.rs"],
        ),
        package_json(
            MACROS,
            "sqlx-macros",
            &["/home/user/.cargo/registry/src/sqlx-macros-0.5.1/src/lib.rs"],
        ),
        package_json(SERDE, "serde", &["/home/user/.cargo/registry/src/serde-1.0.0/src/lib.rs"]),
        package_json(
            B,
            "b_in_workspace_lib",
            &["/home/user/problematic/workspace/b_in_workspace_lib/src/lib.rs"],
        ),
    ];
    let nodes = vec![
        node_json(C, &[B, SERDE]),
        node_json(B, &[SQLX]),
        node_json(A, &[SERDE]),
        node_json(SQLX, &[MACROS, SERDE]),
        node_json(MACROS, &[SERDE]),
        node_json(SERDE, &[]),
    ];
    metadata_json(&packages, &[A, B, C], Some(&nodes))
}

#[test]
fn minimal_project_recompile_action_works() {
    let metadata = Metadata::from_str(&sample_metadata()).unwrap();

    let action = minimal_project_recompile_action(&metadata, "sqlx-macros");
    assert_eq!(
        action,
        ProjectRecompileAction {
            clean_packages: vec!["sqlx".into()],
            touch_paths: vec![
                "/home/user/problematic/workspace/b_in_workspace_lib/src/lib.rs".into(),
                "/home/user/problematic/workspace/c_in_workspace_bin/src/main.rs".into(),
            ],
        }
    );
}

#[test]
fn absent_marker_gives_an_empty_action() {
    let metadata = Metadata::from_str(&sample_metadata()).unwrap();
    let action = minimal_project_recompile_action(&metadata, "diesel");
    assert_eq!(
        action,
        ProjectRecompileAction { clean_packages: vec![], touch_paths: vec![] }
    );
}

#[test]
fn dependents_are_the_transitive_closure_in_identity_order() {
    let metadata = Metadata::from_str(&sample_metadata()).unwrap();
    let dependents = metadata.all_dependents_of(&PackageId::new(MACROS));
    assert_eq!(
        dependents,
        vec![PackageId::new(B), PackageId::new(C), PackageId::new(SQLX)]
    );
    let of_serde = metadata.all_dependents_of(&PackageId::new(SERDE));
    assert_eq!(
        of_serde,
        vec![
            PackageId::new(A),
            PackageId::new(B),
            PackageId::new(C),
            PackageId::new(SQLX),
            PackageId::new(MACROS),
        ]
    );
    assert!(metadata.all_dependents_of(&PackageId::new(C)).is_empty());
    assert!(metadata.all_dependents_of(&PackageId::new("unknown 1.0.0")).is_empty());
}

#[test]
fn getters_give_back_the_document() {
    let metadata = Metadata::from_str(&sample_metadata()).unwrap();
    assert_eq!(metadata.workspace_root(), "/home/user/problematic/workspace");
    assert_eq!(metadata.target_directory(), "/home/user/problematic/workspace/target");
    assert_eq!(
        metadata.workspace_members(),
        &[PackageId::new(A), PackageId::new(B), PackageId::new(C)]
    );
    let package = metadata.package(&PackageId::new(B)).unwrap();
    assert_eq!(package.name(), "b_in_workspace_lib");
    assert_eq!(
        package.src_paths(),
        &["/home/user/problematic/workspace/b_in_workspace_lib/src/lib.rs".to_string()]
    );
    assert!(metadata.package(&PackageId::new("unknown 1.0.0")).is_none());
    let ids: Vec<&str> = metadata.entries().iter().map(|(id, _)| id.as_str()).collect();
    assert_eq!(ids, vec![A, B, C, SERDE, SQLX, MACROS]);
}

#[test]
fn malformed_text_is_a_parse_error() {
    assert!(matches!(Metadata::from_str("{ not json"), Err(MetadataError::Parse(_))));
    assert!(matches!(Metadata::from_str("{}"), Err(MetadataError::Parse(_))));
}

#[test]
fn missing_resolve_is_reported() {
    let packages = vec![package_json(A, "a_in_workspace_lib", &["/w/a/src/lib.rs"])];
    let text = metadata_json(&packages, &[A], None);
    assert!(matches!(Metadata::from_str(&text), Err(MetadataError::MissingResolution)));
}

#[test]
fn unknown_package_in_resolve_is_rejected() {
    let packages = vec![package_json(A, "a_in_workspace_lib", &["/w/a/src/lib.rs"])];
    let nodes = vec![node_json(A, &[SERDE])];
    let text = metadata_json(&packages, &[A], Some(&nodes));
    assert!(matches!(Metadata::from_str(&text), Err(MetadataError::Parse(_))));
}

#[test]
fn a_cycle_does_not_trap_the_search() {
    let document = MetadataDocument {
        packages: vec![
            PackageRecord { id: "x".into(), name: "x".into(), src_paths: vec!["x.rs".into()] },
            PackageRecord { id: "y".into(), name: "y".into(), src_paths: vec!["y.rs".into()] },
            PackageRecord { id: "z".into(), name: "z".into(), src_paths: vec![] },
        ],
        workspace_members: vec!["x".into()],
        workspace_root: "/w".into(),
        target_directory: "/w/target".into(),
        resolve: Some(vec![
            ResolveNode { id: "x".into(), deps: vec!["y".into()] },
            ResolveNode { id: "y".into(), deps: vec!["x".into()] },
        ]),
    };
    let metadata = Metadata::from_document(&document).unwrap();
    assert_eq!(
        metadata.all_dependents_of(&PackageId::new("x")),
        vec![PackageId::new("x"), PackageId::new("y")]
    );
    assert!(metadata.all_dependents_of(&PackageId::new("z")).is_empty());
}

#[test]
fn edge_order_does_not_matter() {
    let nodes = vec![
        ResolveNode { id: "c".into(), deps: vec!["b".into(), "a".into()] },
        ResolveNode { id: "b".into(), deps: vec!["a".into()] },
    ];
    let reordered = vec![
        ResolveNode { id: "b".into(), deps: vec!["a".into()] },
        ResolveNode { id: "c".into(), deps: vec!["a".into(), "b".into()] },
    ];
    let build = |nodes: Vec<ResolveNode>| {
        Metadata::from_document(&MetadataDocument {
            packages: vec![
                PackageRecord { id: "c".into(), name: "c".into(), src_paths: vec![] },
                PackageRecord { id: "a".into(), name: "a".into(), src_paths: vec![] },
                PackageRecord { id: "b".into(), name: "b".into(), src_paths: vec![] },
            ],
            workspace_members: vec![],
            workspace_root: "/w".into(),
            target_directory: "/w/target".into(),
            resolve: Some(nodes),
        })
        .unwrap()
    };
    let first = build(nodes);
    let second = build(reordered);
    for id in ["a", "b", "c"] {
        assert_eq!(
            first.all_dependents_of(&PackageId::new(id)),
            second.all_dependents_of(&PackageId::new(id))
        );
    }
    assert_eq!(
        first.all_dependents_of(&PackageId::new("a")),
        vec![PackageId::new("b"), PackageId::new("c")]
    );
}

#[test]
fn a_later_record_replaces_an_earlier_one() {
    let document = MetadataDocument {
        packages: vec![
            PackageRecord { id: "p".into(), name: "old".into(), src_paths: vec!["old.rs".into()] },
            PackageRecord { id: "p".into(), name: "new".into(), src_paths: vec!["new.rs".into()] },
        ],
        workspace_members: vec![],
        workspace_root: "/w".into(),
        target_directory: "/w/target".into(),
        resolve: Some(vec![]),
    };
    let metadata = Metadata::from_document(&document).unwrap();
    assert_eq!(metadata.entries().len(), 1);
    assert_eq!(metadata.package(&PackageId::new("p")).unwrap().name(), "new");
}
