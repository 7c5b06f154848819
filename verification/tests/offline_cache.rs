use std::sync::Arc;

use sqlx_prepare::digest::hash_string;
use sqlx_prepare::json::{find_member, Member};
use sqlx_prepare::offline::{
    check_query_data, file_name_for, parse_query_data, DatabaseKind, DynQueryData, LoadFailure,
    OfflineCache, QueryData, RawQueryData, SerializeDbName,
};

const QUERY: &str = "SELECT id, name FROM users WHERE id = $1";
const DESCRIBE: &str = r#"{"columns":[{"name":"id","ordinal":0}],"nullable":[false],"parameters":{"Left":["Int4"]}}"#;

fn all_kinds() -> Vec<DatabaseKind> {
    vec![DatabaseKind::Postgres, DatabaseKind::MySql, DatabaseKind::Sqlite, DatabaseKind::Mssql]
}

fn sample() -> QueryData {
    QueryData::from_describe(DatabaseKind::Postgres, QUERY, DESCRIBE)
}

fn json(text: &str) -> serde_json::Value {
    serde_json::from_str(text).unwrap()
}

#[test]
fn hash_string_is_the_hex_sha256_of_the_text() {
    assert_eq!(
        hash_string(""),
        "e3b0c44298fc1c149afbf4c8996fb92427ae41e4649b934ca495991b7852b855"
    );
    assert_eq!(
        hash_string("abc"),
        "ba7816bf8f01cfea414140de5dae2223b00361a396177a9cb410ff61f20015ad"
    );
    assert_eq!(hash_string(QUERY).len(), 64);
    assert_ne!(hash_string(QUERY), hash_string("SELECT 1"));
}

#[test]
fn file_name_frames_the_hash() {
    assert_eq!(file_name_for("00ff"), "query-00ff.json");
    assert_eq!(file_name_for(""), "query-.json");
}

#[test]
fn database_kinds_have_their_names() {
    assert_eq!(DatabaseKind::Postgres.name(), "PostgreSQL");
    assert_eq!(DatabaseKind::MySql.name(), "MySQL");
    assert_eq!(DatabaseKind::Sqlite.name(), "SQLite");
    assert_eq!(DatabaseKind::Mssql.name(), "MSSQL");
    for kind in all_kinds() {
        assert_eq!(DatabaseKind::from_name(kind.name()), Some(kind));
        assert_eq!(SerializeDbName::new(kind).to_string(), kind.name());
    }
    assert_eq!(DatabaseKind::from_name("Oracle"), None);
    assert_eq!(DatabaseKind::from_name("postgresql"), None);
}

#[test]
fn from_describe_hashes_the_query() {
    let data = sample();
    assert_eq!(data.query(), QUERY);
    assert_eq!(data.hash(), hash_string(QUERY));
    assert_eq!(data.db_name(), "PostgreSQL");
    assert_eq!(data.kind(), DatabaseKind::Postgres);
    assert_eq!(data.describe(), DESCRIBE);
}

#[test]
fn a_descriptor_is_only_of_its_own_kind() {
    let data = QueryData::from_describe(DatabaseKind::Sqlite, QUERY, "null");
    assert!(data.to_sqlite().is_ok());
    assert_eq!(data.to_postgres().unwrap_err().failure, LoadFailure::UnknownDatabaseKind);
    assert_eq!(data.to_mysql().unwrap_err().failure, LoadFailure::UnknownDatabaseKind);
    assert_eq!(data.to_mssql().unwrap_err().failure, LoadFailure::UnknownDatabaseKind);
    assert_eq!(data.to_postgres().unwrap_err().detail, "SQLite");
    assert!(data.as_kind(DatabaseKind::Sqlite).is_ok());
    assert!(QueryData::from_describe(DatabaseKind::Postgres, QUERY, "null").to_postgres().is_ok());
    assert!(QueryData::from_describe(DatabaseKind::MySql, QUERY, "null").to_mysql().is_ok());
    assert!(QueryData::from_describe(DatabaseKind::Mssql, QUERY, "null").to_mssql().is_ok());
}

#[test]
fn save_plan_names_the_files_and_writes_the_descriptor() {
    let plan = sample().save_plan("#0 bytes(10..42)").unwrap();
    assert_eq!(
        plan.temporary_name,
        format!("query-{}.json", hash_string("#0 bytes(10..42)"))
    );
    assert_eq!(plan.final_name, format!("query-{}.json", hash_string(QUERY)));
    let written = json(&plan.contents);
    assert_eq!(written["query"], serde_json::Value::String(QUERY.to_string()));
    assert_eq!(written["db_name"], serde_json::Value::String("PostgreSQL".to_string()));
    assert_eq!(written["hash"], serde_json::Value::String(hash_string(QUERY)));
    assert_eq!(written["describe"], json(DESCRIBE));
    assert_eq!(written.as_object().unwrap().len(), 4);
}

#[test]
fn distinct_call_sites_get_distinct_temporary_files() {
    let first = sample().save_plan("site one").unwrap();
    let second = sample().save_plan("site two").unwrap();
    assert_ne!(first.temporary_name, second.temporary_name);
    assert_eq!(first.final_name, second.final_name);
    assert_eq!(first.contents, second.contents);
}

#[test]
fn a_payload_that_is_not_json_cannot_be_saved() {
    let data = QueryData::from_describe(DatabaseKind::Postgres, QUERY, "{ not json");
    assert!(data.save_plan("site").is_err());
}

#[test]
fn saving_then_loading_gives_the_descriptor_back() {
    let data = sample();
    let plan = data.save_plan("site").unwrap();
    let mut cache = OfflineCache::new(all_kinds());
    let loaded = cache
        .load_query_from_data_file(&plan.final_name, QUERY, Ok(plan.contents.clone()))
        .unwrap();
    assert_eq!(loaded.query(), data.query());
    assert_eq!(loaded.hash(), data.hash());
    assert_eq!(loaded.db_name(), data.db_name());
    assert_eq!(loaded.kind(), data.kind());
    assert_eq!(json(loaded.describe()), json(data.describe()));
}

#[test]
fn a_scalar_payload_comes_back_letter_for_letter() {
    let data = QueryData::from_describe(DatabaseKind::MySql, "SELECT 1", "\"opaque\"");
    let plan = data.save_plan("site").unwrap();
    let mut cache = OfflineCache::new(all_kinds());
    let loaded = cache
        .load_query_from_data_file(&plan.final_name, "SELECT 1", Ok(plan.contents))
        .unwrap();
    assert_eq!(loaded.describe(), "\"opaque\"");
    assert_eq!(loaded.db_name(), "MySQL");
}

#[test]
fn another_query_is_a_collision() {
    let plan = sample().save_plan("site").unwrap();
    let mut cache = OfflineCache::new(all_kinds());
    let error = cache
        .load_query_from_data_file(&plan.final_name, "SELECT 2", Ok(plan.contents.clone()))
        .unwrap_err();
    assert_eq!(error.failure, LoadFailure::Collision);
    assert_eq!(error.detail, QUERY);
    assert!(cache.lookup(&plan.final_name, QUERY).is_none());

    cache.load_query_from_data_file(&plan.final_name, QUERY, Ok(plan.contents.clone())).unwrap();
    let cached = cache.lookup(&plan.final_name, "SELECT 2").unwrap().unwrap_err();
    assert_eq!(cached.failure, LoadFailure::Collision);
    assert_eq!(cached.detail, QUERY);
    let again = cache
        .load_query_from_data_file(&plan.final_name, "SELECT 2", Ok(plan.contents))
        .unwrap_err();
    assert_eq!(again.failure, LoadFailure::Collision);
}

#[test]
fn later_loads_share_the_first_descriptor() {
    let plan = sample().save_plan("site").unwrap();
    let mut cache = OfflineCache::new(all_kinds());
    assert!(cache.lookup("a/query-1.json", QUERY).is_none());
    let first = cache
        .load_query_from_data_file("a/query-1.json", QUERY, Ok(plan.contents.clone()))
        .unwrap();
    let second = cache
        .load_query_from_data_file("a/query-1.json", QUERY, Err("not read".to_string()))
        .unwrap();
    let third = cache.lookup("a/query-1.json", QUERY).unwrap().unwrap();
    assert!(Arc::ptr_eq(&first, &second));
    assert!(Arc::ptr_eq(&first, &third));
    assert!(cache.lookup("b/query-1.json", QUERY).is_none());
}

#[test]
fn an_unreadable_file_is_an_io_error() {
    let mut cache = OfflineCache::new(all_kinds());
    let error = cache
        .load_query_from_data_file("query-1.json", QUERY, Err("No such file".to_string()))
        .unwrap_err();
    assert_eq!(error.failure, LoadFailure::Io);
    assert_eq!(error.detail, "No such file");
}

#[test]
fn a_malformed_file_is_a_parse_error() {
    for text in [
        "{ not json",
        "[1, 2, 3]",
        "42",
        r#"{"query":"q","describe":null}"#,
        r#"{"db_name":"PostgreSQL","describe":null}"#,
        r#"{"db_name":"PostgreSQL","query":"q"}"#,
        r#"{"db_name":7,"query":"q","describe":null}"#,
        r#"{"db_name":"PostgreSQL","query":["q"],"describe":null}"#,
    ] {
        let mut cache = OfflineCache::new(all_kinds());
        let error = cache
            .load_query_from_data_file("query-1.json", "q", Ok(text.to_string()))
            .unwrap_err();
        assert_eq!(error.failure, LoadFailure::Parse);
        assert_eq!(parse_query_data(text).unwrap_err().failure, LoadFailure::Parse);
    }
}

#[test]
fn parse_query_data_takes_the_file_apart() {
    let raw = parse_query_data(
        r#"{ "query": "SELECT \"a\"", "extra": 1, "describe": {"x": [1, 2]}, "db_name": "SQLite" }"#,
    )
    .unwrap();
    assert_eq!(raw.db_name, "SQLite");
    assert_eq!(raw.query, "SELECT \"a\"");
    assert_eq!(raw.describe, r#"{"x": [1, 2]}"#);
}

#[test]
fn an_unknown_or_unsupported_database_is_rejected() {
    let text = r#"{"db_name":"Oracle","query":"q","describe":null}"#;
    let mut cache = OfflineCache::new(all_kinds());
    let error = cache.load_query_from_data_file("p", "q", Ok(text.to_string())).unwrap_err();
    assert_eq!(error.failure, LoadFailure::UnknownDatabaseKind);
    assert_eq!(error.detail, "Oracle");

    let text = r#"{"db_name":"MySQL","query":"q","describe":null}"#;
    let mut cache = OfflineCache::new(vec![DatabaseKind::Postgres, DatabaseKind::Sqlite]);
    let error = cache.load_query_from_data_file("p", "q", Ok(text.to_string())).unwrap_err();
    assert_eq!(error.failure, LoadFailure::UnknownDatabaseKind);
    let mut cache = OfflineCache::new(vec![DatabaseKind::MySql]);
    assert!(cache.load_query_from_data_file("p", "q", Ok(text.to_string())).is_ok());
}

#[test]
fn a_collision_is_reported_before_an_unknown_database() {
    let raw = RawQueryData {
        db_name: "Oracle".to_string(),
        query: "q".to_string(),
        describe: "null".to_string(),
    };
    let error = check_query_data(raw, "other", &all_kinds()).unwrap_err();
    assert_eq!(error.failure, LoadFailure::Collision);
}

#[test]
fn check_query_data_accepts_a_supported_descriptor() {
    let raw = RawQueryData {
        db_name: "MSSQL".to_string(),
        query: "q".to_string(),
        describe: "[]".to_string(),
    };
    let data = check_query_data(raw, "q", &[DatabaseKind::Mssql]).unwrap();
    assert_eq!(data.kind(), DatabaseKind::Mssql);
    assert_eq!(data.query(), "q");
    assert_eq!(data.hash(), hash_string("q"));
    assert_eq!(data.describe(), "[]");
}

#[test]
fn find_member_takes_the_first_of_a_name() {
    let members = vec![
        Member { name: "a".to_string(), text: "1".to_string() },
        Member { name: "b".to_string(), text: "2".to_string() },
        Member { name: "a".to_string(), text: "3".to_string() },
    ];
    assert_eq!(find_member(&members, "a"), Some("1"));
    assert_eq!(find_member(&members, "b"), Some("2"));
    assert_eq!(find_member(&members, "c"), None);
}

#[test]
fn saving_twice_plans_one_file() {
    let first = QueryData::from_describe(DatabaseKind::Postgres, QUERY, DESCRIBE)
        .save_plan("first")
        .unwrap();
    let second = QueryData::from_describe(DatabaseKind::Postgres, QUERY, DESCRIBE)
        .save_plan("second")
        .unwrap();
    assert_eq!(first.final_name, second.final_name);
    assert_eq!(first.contents, second.contents);
    let mut cache = OfflineCache::new(all_kinds());
    assert!(cache.load_query_from_data_file(&second.final_name, QUERY, Ok(second.contents)).is_ok());
}
