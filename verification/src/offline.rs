//! Query descriptors and their files: what a descriptor holds, the name of
//! the file it is saved under, what is written there, and what is accepted
//! when a file is read back.

use crate::digest::{content_hash, hash_string};
use crate::json::{
    find_member, json_error_message, member_text, object_members, parse_object, parse_string,
    render_object, rendered_object, string_value, Member, MemberView,
};
use std::sync::Arc;
use vstd::hash_map::StringHashMap;
use vstd::prelude::*;
use vstd::string::*;

verus! {

/// The database kinds that a descriptor can be for.
#[derive(Clone, Copy, Debug, PartialEq, Eq, Structural, Hash)]
pub enum DatabaseKind {
    Postgres,
    MySql,
    Sqlite,
    Mssql,
}

impl DatabaseKind {
    /// The name under which the kind stands in a descriptor file.
    pub open spec fn spec_name(self) -> Seq<char> {
        match self {
            DatabaseKind::Postgres => "PostgreSQL"@,
            DatabaseKind::MySql => "MySQL"@,
            DatabaseKind::Sqlite => "SQLite"@,
            DatabaseKind::Mssql => "MSSQL"@,
        }
    }

    /// The name under which the kind stands in a descriptor file.
    pub fn name(self) -> (r: &'static str)
        ensures
            r@ == self.spec_name(),
    {
        match self {
            DatabaseKind::Postgres => "PostgreSQL",
            DatabaseKind::MySql => "MySQL",
            DatabaseKind::Sqlite => "SQLite",
            DatabaseKind::Mssql => "MSSQL",
        }
    }

    /// The kind that a name stands for, if any.
    pub fn from_name(name: &str) -> (r: Option<DatabaseKind>)
        ensures
            r == kind_named(name@),
    {
        let name = name.to_owned();
        if name == "PostgreSQL".to_owned() {
            Some(DatabaseKind::Postgres)
        } else if name == "MySQL".to_owned() {
            Some(DatabaseKind::MySql)
        } else if name == "SQLite".to_owned() {
            Some(DatabaseKind::Sqlite)
        } else if name == "MSSQL".to_owned() {
            Some(DatabaseKind::Mssql)
        } else {
            None
        }
    }
}

/// The kind that a name stands for, if any.
pub open spec fn kind_named(name: Seq<char>) -> Option<DatabaseKind> {
    if name == "PostgreSQL"@ {
        Some(DatabaseKind::Postgres)
    } else if name == "MySQL"@ {
        Some(DatabaseKind::MySql)
    } else if name == "SQLite"@ {
        Some(DatabaseKind::Sqlite)
    } else if name == "MSSQL"@ {
        Some(DatabaseKind::Mssql)
    } else {
        None
    }
}

/// Every kind is the one that its name stands for.
pub proof fn lemma_kind_of_its_name(kind: DatabaseKind)
    ensures
        kind_named(kind.spec_name()) == Some(kind),
{
    reveal_strlit("PostgreSQL");
    reveal_strlit("MySQL");
    reveal_strlit("SQLite");
    reveal_strlit("MSSQL");
    assert("PostgreSQL"@.len() == 10);
    assert("MySQL"@.len() == 5);
    assert("SQLite"@.len() == 6);
    assert("MSSQL"@.len() == 5);
    assert("MySQL"@[1] == 'y');
    assert("MSSQL"@[1] == 'S');
}

/// The database kind of a descriptor, as it is written to a file: by its
/// name.
#[derive(Clone, Copy, Debug, PartialEq, Eq, Structural, Hash)]
pub struct SerializeDbName {
    pub kind: DatabaseKind,
}

impl SerializeDbName {
    pub fn new(kind: DatabaseKind) -> (r: SerializeDbName)
        ensures
            r.kind == kind,
    {
        SerializeDbName { kind }
    }

    /// The text that is written for the kind.
    pub fn to_string(&self) -> (r: String)
        ensures
            r@ == self.kind.spec_name(),
    {
        self.kind.name().to_owned()
    }
}

/// What a descriptor holds.
pub struct QueryDataView {
    pub kind: DatabaseKind,
    pub query: Seq<char>,
    pub hash: Seq<char>,
    pub describe: Seq<char>,
}

impl QueryDataView {
    /// The hash of a descriptor is the content hash of its query text.
    pub open spec fn wf(self) -> bool {
        self.hash == content_hash(self.query)
    }
}

/// The descriptor of one query: the database kind, the query text, the
/// content hash of the text, and the type and shape payload, which this
/// library carries as JSON text and never looks into.
#[derive(Debug)]
pub struct QueryData {
    query: String,
    describe: String,
    hash: String,
    db_name: SerializeDbName,
}

impl View for QueryData {
    type V = QueryDataView;

    closed spec fn view(&self) -> QueryDataView {
        QueryDataView {
            kind: self.db_name.kind,
            query: self.query@,
            hash: self.hash@,
            describe: self.describe@,
        }
    }
}

impl DeepView for QueryData {
    type V = QueryDataView;

    open spec fn deep_view(&self) -> QueryDataView {
        self@
    }
}

/// Why a descriptor is not handed out.
#[derive(Clone, Copy, Debug, PartialEq, Eq, Structural)]
pub enum LoadFailure {
    /// The file could not be read.
    Io,
    /// The file does not hold a descriptor.
    Parse,
    /// The descriptor is of another query than the one asked for: two
    /// query texts with one content hash.
    Collision,
    /// The descriptor is for a database kind that is not supported.
    UnknownDatabaseKind,
}

/// A failure together with what there is to say about it: the message of
/// the file system or of the parser, or the name of the database kind.
#[derive(Debug)]
pub struct LoadError {
    pub failure: LoadFailure,
    pub detail: String,
}

/// Why the model refuses a descriptor: the failure, and the detail that the
/// error has to carry. For a file that cannot be read the detail is the
/// message of the file system, for a collision the query text that the
/// descriptor is of, for an unknown database kind its name; for a file that
/// does not hold a descriptor it is left to the parser.
pub struct Rejection {
    pub failure: LoadFailure,
    pub detail: Option<Seq<char>>,
}

/// An error is the one that the model asks for.
pub open spec fn reports(error: LoadError, rejection: Rejection) -> bool {
    &&& error.failure == rejection.failure
    &&& rejection.detail matches Some(detail) ==> error.detail@ == detail
}

/// The three capabilities of a descriptor whatever its database kind, and
/// the way to a descriptor of a given kind.
pub trait DynQueryData {
    spec fn descriptor(&self) -> QueryDataView;

    fn db_name(&self) -> (r: &str)
        ensures
            r@ == self.descriptor().kind.spec_name(),
    ;

    fn hash(&self) -> (r: &str)
        ensures
            r@ == self.descriptor().hash,
    ;

    fn query(&self) -> (r: &str)
        ensures
            r@ == self.descriptor().query,
    ;

    fn to_postgres(&self) -> (r: Result<&QueryData, LoadError>)
        ensures
            outcome_for_kind(self.descriptor(), DatabaseKind::Postgres, r),
    ;

    fn to_mysql(&self) -> (r: Result<&QueryData, LoadError>)
        ensures
            outcome_for_kind(self.descriptor(), DatabaseKind::MySql, r),
    ;

    fn to_sqlite(&self) -> (r: Result<&QueryData, LoadError>)
        ensures
            outcome_for_kind(self.descriptor(), DatabaseKind::Sqlite, r),
    ;

    fn to_mssql(&self) -> (r: Result<&QueryData, LoadError>)
        ensures
            outcome_for_kind(self.descriptor(), DatabaseKind::Mssql, r),
    ;
}

/// Asking a descriptor for a kind gives the descriptor itself if it is of
/// that kind, and `UnknownDatabaseKind` with the name of its own kind if it
/// is of another.
pub open spec fn outcome_for_kind(
    descriptor: QueryDataView,
    kind: DatabaseKind,
    r: Result<&QueryData, LoadError>,
) -> bool {
    match r {
        Ok(data) => descriptor.kind == kind && data@ == descriptor,
        Err(error) => descriptor.kind != kind && reports(
            error,
            Rejection {
                failure: LoadFailure::UnknownDatabaseKind,
                detail: Some(descriptor.kind.spec_name()),
            },
        ),
    }
}

impl QueryData {
    #[verifier::type_invariant]
    spec fn inv(&self) -> bool {
        self.hash@ == content_hash(self.query@)
    }

    /// Makes the descriptor of `query` for a database of the given kind
    /// from the payload that the database gave.
    pub fn from_describe(kind: DatabaseKind, query: &str, describe: &str) -> (r: QueryData)
        ensures
            r@.wf(),
            r@ == (QueryDataView {
                kind,
                query: query@,
                hash: content_hash(query@),
                describe: describe@,
            }),
    {
        QueryData {
            query: query.to_owned(),
            describe: describe.to_owned(),
            hash: hash_string(query),
            db_name: SerializeDbName::new(kind),
        }
    }

    /// The database kind.
    pub fn kind(&self) -> (r: DatabaseKind)
        ensures
            r == self@.kind,
            self@.wf(),
    {
        proof {
            use_type_invariant(self);
        }
        self.db_name.kind
    }

    /// The payload, as JSON text.
    pub fn describe(&self) -> (r: &str)
        ensures
            r@ == self@.describe,
    {
        self.describe.as_str()
    }

    /// The descriptor itself if it is of the given kind.
    pub fn as_kind(&self, kind: DatabaseKind) -> (r: Result<&QueryData, LoadError>)
        ensures
            outcome_for_kind(self@, kind, r),
    {
        if self.db_name.kind == kind {
            Ok(self)
        } else {
            Err(
                LoadError {
                    failure: LoadFailure::UnknownDatabaseKind,
                    detail: self.db_name.to_string(),
                },
            )
        }
    }
}

impl DynQueryData for QueryData {
    open spec fn descriptor(&self) -> QueryDataView {
        self@
    }

    fn db_name(&self) -> (r: &str) {
        self.db_name.kind.name()
    }

    fn hash(&self) -> (r: &str) {
        self.hash.as_str()
    }

    fn query(&self) -> (r: &str) {
        self.query.as_str()
    }

    fn to_postgres(&self) -> (r: Result<&QueryData, LoadError>) {
        self.as_kind(DatabaseKind::Postgres)
    }

    fn to_mysql(&self) -> (r: Result<&QueryData, LoadError>) {
        self.as_kind(DatabaseKind::MySql)
    }

    fn to_sqlite(&self) -> (r: Result<&QueryData, LoadError>) {
        self.as_kind(DatabaseKind::Sqlite)
    }

    fn to_mssql(&self) -> (r: Result<&QueryData, LoadError>) {
        self.as_kind(DatabaseKind::Mssql)
    }
}

/// The name of the file that holds the descriptor with the given hash.
pub open spec fn data_file_name(hash: Seq<char>) -> Seq<char> {
    "query-"@ + hash + ".json"@
}

/// The name of the file that holds the descriptor with the given hash:
/// `query-`, the hash, `.json`.
pub fn file_name_for(hash: &str) -> (r: String)
    ensures
        r@ == data_file_name(hash@),
{
    "query-".to_owned().concat(hash).concat(".json")
}

/// The members that are written as JSON strings.
pub open spec fn string_members(data: QueryDataView) -> Seq<MemberView> {
    seq![
        MemberView { name: "query"@, text: data.query },
        MemberView { name: "hash"@, text: data.hash },
        MemberView { name: "db_name"@, text: data.kind.spec_name() },
    ]
}

/// The member that is written as it stands: the payload.
pub open spec fn raw_members(data: QueryDataView) -> Seq<MemberView> {
    seq![MemberView { name: "describe"@, text: data.describe }]
}

/// What is written for a descriptor, if its payload is JSON.
pub open spec fn file_contents(data: QueryDataView) -> Option<Seq<char>> {
    rendered_object(string_members(data), raw_members(data))
}

/// How a descriptor is saved: written under `temporary_name` in the staging
/// directory, flushed, and then moved in one step to `final_name` in the
/// cache directory.
#[derive(Debug)]
pub struct SavePlan {
    pub temporary_name: String,
    pub final_name: String,
    pub contents: String,
}

pub struct SavePlanView {
    pub temporary_name: Seq<char>,
    pub final_name: Seq<char>,
    pub contents: Seq<char>,
}

impl View for SavePlan {
    type V = SavePlanView;

    open spec fn view(&self) -> SavePlanView {
        SavePlanView {
            temporary_name: self.temporary_name@,
            final_name: self.final_name@,
            contents: self.contents@,
        }
    }
}

/// The payload of a descriptor is not JSON. Carries the parser's message.
#[derive(Debug)]
pub struct SaveError {
    pub detail: String,
}

impl QueryData {
    /// Plans the saving of the descriptor for the call site with the given
    /// token. The temporary file is named by the hash of the token, so that
    /// two call sites never write to one file; the final file is named by
    /// the content hash of the query text. Fails exactly where the payload
    /// is not JSON.
    pub fn save_plan(&self, call_site: &str) -> (r: Result<SavePlan, SaveError>)
        ensures
            self@.wf(),
            match file_contents(self@) {
                Some(contents) => r is Ok && r->Ok_0@ == (SavePlanView {
                    temporary_name: data_file_name(content_hash(call_site@)),
                    final_name: data_file_name(content_hash(self@.query)),
                    contents,
                }),
                None => r is Err,
            },
    {
        proof {
            use_type_invariant(self);
        }
        let mut strings: Vec<Member> = Vec::new();
        strings.push(Member { name: "query".to_owned(), text: self.query.clone() });
        strings.push(Member { name: "hash".to_owned(), text: self.hash.clone() });
        strings.push(Member { name: "db_name".to_owned(), text: self.db_name.to_string() });
        let mut raws: Vec<Member> = Vec::new();
        raws.push(Member { name: "describe".to_owned(), text: self.describe.clone() });
        proof {
            assert(strings.deep_view() =~= string_members(self@));
            assert(raws.deep_view() =~= raw_members(self@));
        }
        match render_object(&strings, &raws) {
            Ok(contents) => Ok(
                SavePlan {
                    temporary_name: file_name_for(hash_string(call_site).as_str()),
                    final_name: file_name_for(self.hash.as_str()),
                    contents,
                },
            ),
            Err(error) => Err(SaveError { detail: json_error_message(&error) }),
        }
    }
}

/// What a descriptor file holds, before it is checked.
#[derive(Debug)]
pub struct RawQueryData {
    pub db_name: String,
    pub query: String,
    pub describe: String,
}

pub struct RawQueryDataView {
    pub db_name: Seq<char>,
    pub query: Seq<char>,
    pub describe: Seq<char>,
}

impl View for RawQueryData {
    type V = RawQueryDataView;

    open spec fn view(&self) -> RawQueryDataView {
        RawQueryDataView { db_name: self.db_name@, query: self.query@, describe: self.describe@ }
    }
}

/// The string that the member `name` denotes.
pub open spec fn string_member(members: Seq<MemberView>, name: Seq<char>) -> Option<Seq<char>> {
    match member_text(members, name) {
        Some(text) => string_value(text),
        None => None,
    }
}

/// What a text holds of a descriptor: the text is a JSON object, its
/// members `db_name` and `query` are strings, and it has a member
/// `describe`.
pub open spec fn descriptor_in(text: Seq<char>) -> Option<RawQueryDataView> {
    match object_members(text) {
        Some(members) => match (
            string_member(members, "db_name"@),
            string_member(members, "query"@),
            member_text(members, "describe"@),
        ) {
            (Some(db_name), Some(query), Some(describe)) => Some(
                RawQueryDataView { db_name, query, describe },
            ),
            _ => None,
        },
        None => None,
    }
}

fn parse_failure(detail: String) -> (r: LoadError)
    ensures
        r.failure == LoadFailure::Parse,
{
    LoadError { failure: LoadFailure::Parse, detail }
}

/// Reads the string member `name`.
fn read_string_member(members: &Vec<Member>, name: &str) -> (r: Result<String, LoadError>)
    ensures
        match string_member(members.deep_view(), name@) {
            Some(value) => r is Ok && r->Ok_0@ == value,
            None => r is Err && r->Err_0.failure == LoadFailure::Parse,
        },
{
    match find_member(members, name) {
        Some(text) => match parse_string(text) {
            Ok(value) => Ok(value),
            Err(error) => Err(parse_failure(json_error_message(&error))),
        },
        None => Err(parse_failure(name.to_owned())),
    }
}

/// Takes a descriptor file apart. Fails with `Parse` exactly where the
/// text holds no descriptor.
pub fn parse_query_data(contents: &str) -> (r: Result<RawQueryData, LoadError>)
    ensures
        match descriptor_in(contents@) {
            Some(raw) => r is Ok && r->Ok_0@ == raw,
            None => r is Err && r->Err_0.failure == LoadFailure::Parse,
        },
{
    let members = match parse_object(contents) {
        Ok(members) => members,
        Err(error) => {
            return Err(parse_failure(json_error_message(&error)));
        },
    };
    let db_name = read_string_member(&members, "db_name");
    let query = read_string_member(&members, "query");
    let describe = find_member(&members, "describe");
    match (db_name, query, describe) {
        (Ok(db_name), Ok(query), Some(describe)) => Ok(
            RawQueryData { db_name, query, describe: describe.to_owned() },
        ),
        (Err(error), _, _) => Err(error),
        (_, Err(error), _) => Err(error),
        (_, _, None) => Err(parse_failure("describe".to_owned())),
    }
}

/// The refusal of a descriptor for its database kind.
pub open spec fn unknown_kind(db_name: Seq<char>) -> Rejection {
    Rejection { failure: LoadFailure::UnknownDatabaseKind, detail: Some(db_name) }
}

/// What checking a raw descriptor against the query that is asked for
/// gives: a collision where it is of another query, else an unknown kind
/// where its database is not among the supported ones, else the descriptor.
pub open spec fn validated(
    raw: RawQueryDataView,
    query: Seq<char>,
    supported: Seq<DatabaseKind>,
) -> Result<QueryDataView, Rejection> {
    if raw.query != query {
        Err(Rejection { failure: LoadFailure::Collision, detail: Some(raw.query) })
    } else {
        match kind_named(raw.db_name) {
            Some(kind) => if supported.contains(kind) {
                Ok(
                    QueryDataView {
                        kind,
                        query: raw.query,
                        hash: content_hash(raw.query),
                        describe: raw.describe,
                    },
                )
            } else {
                Err(unknown_kind(raw.db_name))
            },
            None => Err(unknown_kind(raw.db_name)),
        }
    }
}

fn supports(supported: &[DatabaseKind], kind: DatabaseKind) -> (r: bool)
    ensures
        r == supported@.contains(kind),
{
    let mut i: usize = 0;
    while i < supported.len()
        invariant
            i <= supported.len(),
            forall|j: int| 0 <= j < i ==> supported[j] != kind,
        decreases supported.len() - i,
    {
        if supported[i] == kind {
            return true;
        }
        i = i + 1;
    }
    false
}

/// Checks a raw descriptor against the query that is asked for and the
/// database kinds that are supported.
pub fn check_query_data(raw: RawQueryData, query: &str, supported: &[DatabaseKind]) -> (r: Result<
    QueryData,
    LoadError,
>)
    ensures
        match validated(raw@, query@, supported@) {
            Ok(data) => r is Ok && r->Ok_0@ == data,
            Err(rejection) => r is Err && reports(r->Err_0, rejection),
        },
{
    if raw.query != query.to_owned() {
        return Err(LoadError { failure: LoadFailure::Collision, detail: raw.query });
    }
    match DatabaseKind::from_name(raw.db_name.as_str()) {
        Some(kind) => {
            if supports(supported, kind) {
                Ok(QueryData::from_describe(kind, raw.query.as_str(), raw.describe.as_str()))
            } else {
                Err(LoadError { failure: LoadFailure::UnknownDatabaseKind, detail: raw.db_name })
            }
        },
        None => Err(LoadError { failure: LoadFailure::UnknownDatabaseKind, detail: raw.db_name }),
    }
}

/// The descriptors that were loaded during one run, by the path of their
/// file, and the database kinds that the run supports. It is made once for
/// a run and handed to every call that loads a descriptor.
pub struct OfflineCache {
    supported: Vec<DatabaseKind>,
    entries: StringHashMap<Arc<QueryData>>,
}

pub struct OfflineCacheView {
    pub supported: Seq<DatabaseKind>,
    pub entries: Map<Seq<char>, QueryDataView>,
}

impl View for OfflineCache {
    type V = OfflineCacheView;

    closed spec fn view(&self) -> OfflineCacheView {
        OfflineCacheView {
            supported: self.supported@,
            entries: self.entries@.map_values(|handle: Arc<QueryData>| handle@),
        }
    }
}

/// What loading the descriptor at `path` for `query` gives, where
/// `contents` is the text of the file, or the message of the file system if
/// it cannot be read.
///
/// A descriptor that the cache holds for the path is checked against the
/// query and handed out; the file is not looked at. Else the file has to be
/// readable, to hold a descriptor, and the descriptor has to be of the
/// query and of a supported database kind.
pub open spec fn loaded(
    cache: OfflineCacheView,
    path: Seq<char>,
    query: Seq<char>,
    contents: Result<Seq<char>, Seq<char>>,
) -> Result<QueryDataView, Rejection> {
    if cache.entries.contains_key(path) {
        if cache.entries[path].query == query {
            Ok(cache.entries[path])
        } else {
            Err(
                Rejection {
                    failure: LoadFailure::Collision,
                    detail: Some(cache.entries[path].query),
                },
            )
        }
    } else {
        match contents {
            Err(message) => Err(Rejection { failure: LoadFailure::Io, detail: Some(message) }),
            Ok(text) => match descriptor_in(text) {
                None => Err(Rejection { failure: LoadFailure::Parse, detail: None }),
                Some(raw) => validated(raw, query, cache.supported),
            },
        }
    }
}

/// `Arc::clone`: another handle to the same descriptor.
#[verifier::external_body]
fn share(handle: &Arc<QueryData>) -> (r: Arc<QueryData>)
    ensures
        r == *handle,
{
    Arc::clone(handle)
}

/// What reading a file gave, as the model sees it.
pub open spec fn text_of(contents: Result<String, String>) -> Result<Seq<char>, Seq<char>> {
    match contents {
        Ok(text) => Ok(text@),
        Err(message) => Err(message@),
    }
}

impl OfflineCache {
    /// An empty cache for a run that supports the given database kinds.
    pub fn new(supported: Vec<DatabaseKind>) -> (r: OfflineCache)
        ensures
            r@.supported == supported@,
            r@.entries == Map::<Seq<char>, QueryDataView>::empty(),
    {
        let cache = OfflineCache { supported, entries: StringHashMap::new() };
        assert(cache@.entries =~= Map::<Seq<char>, QueryDataView>::empty());
        cache
    }

    /// Looks for the descriptor of `path` among those that were loaded.
    /// Gives nothing where there is none, the shared handle where it is of
    /// `query`, and a collision where it is of another query.
    pub fn lookup(&self, path: &str, query: &str) -> (r: Option<Result<Arc<QueryData>, LoadError>>)
        ensures
            r is Some <==> self@.entries.contains_key(path@),
            r is Some ==> match loaded(self@, path@, query@, Err(Seq::empty())) {
                Ok(data) => r->Some_0 is Ok && r->Some_0->Ok_0@ == data,
                Err(rejection) => r->Some_0 is Err && reports(r->Some_0->Err_0, rejection),
            },
    {
        match self.entries.get(path) {
            Some(handle) => {
                if handle.query != query.to_owned() {
                    Some(
                        Err(
                            LoadError {
                                failure: LoadFailure::Collision,
                                detail: handle.query.clone(),
                            },
                        ),
                    )
                } else {
                    Some(Ok(share(handle)))
                }
            },
            None => None,
        }
    }

    /// Loads a query given the path of its file and what reading the file
    /// gave: its text, or the message of the failure. Later calls for the
    /// same path get the descriptor from the cache, as a handle to the same
    /// value.
    ///
    /// The cache changes only where a descriptor is read from the file and
    /// accepted: then it holds the descriptor for the path.
    pub fn load_query_from_data_file(
        &mut self,
        path: &str,
        query: &str,
        contents: Result<String, String>,
    ) -> (r: Result<Arc<QueryData>, LoadError>)
        ensures
            match loaded(old(self)@, path@, query@, text_of(contents)) {
                Ok(data) => r is Ok && r->Ok_0@ == data && final(self)@.entries == old(
                    self,
                )@.entries.insert(path@, data),
                Err(rejection) => r is Err && reports(r->Err_0, rejection)
                    && final(self)@.entries == old(self)@.entries,
            },
            final(self)@.supported == old(self)@.supported,
    {
        match self.lookup(path, query) {
            Some(found) => {
                proof {
                    if found is Ok {
                        assert(self@.entries.insert(path@, found->Ok_0@) =~= self@.entries);
                    }
                }
                return found;
            },
            None => {},
        }
        let text = match contents {
            Ok(text) => text,
            Err(message) => {
                return Err(LoadError { failure: LoadFailure::Io, detail: message });
            },
        };
        let raw = match parse_query_data(text.as_str()) {
            Ok(raw) => raw,
            Err(error) => {
                return Err(error);
            },
        };
        let data = match check_query_data(raw, query, self.supported.as_slice()) {
            Ok(data) => data,
            Err(error) => {
                return Err(error);
            },
        };
        let handle = Arc::new(data);
        let ghost before = self.entries@;
        self.entries.insert(path.to_owned(), share(&handle));
        proof {
            assert(self@.entries =~= before.map_values(|h: Arc<QueryData>| h@).insert(
                path@,
                handle@,
            ));
        }
        Ok(handle)
    }
}

/// What is read back is what was saved: where the file at a path that the
/// cache does not hold yet has the parts of a descriptor, loading it with
/// the descriptor's own query text gives that descriptor, whatever else the
/// cache holds.
pub proof fn lemma_load_gives_the_saved_descriptor(
    cache: OfflineCacheView,
    path: Seq<char>,
    data: QueryDataView,
    text: Seq<char>,
)
    requires
        data.wf(),
        cache.supported.contains(data.kind),
        !cache.entries.contains_key(path),
        descriptor_in(text) == Some(
            RawQueryDataView {
                db_name: data.kind.spec_name(),
                query: data.query,
                describe: data.describe,
            },
        ),
    ensures
        loaded(cache, path, data.query, Ok(text)) == Ok::<QueryDataView, Rejection>(data),
{
    lemma_kind_of_its_name(data.kind);
}

/// The outcome is a collision.
pub open spec fn collides(outcome: Result<QueryDataView, Rejection>) -> bool {
    outcome is Err && outcome->Err_0.failure == LoadFailure::Collision
}

/// A descriptor is never handed out for another query than its own:
/// whether it comes from the cache or from the file, loading it with
/// another query text fails with a collision.
pub proof fn lemma_other_query_collides(
    cache: OfflineCacheView,
    path: Seq<char>,
    query: Seq<char>,
    contents: Result<Seq<char>, Seq<char>>,
)
    ensures
        cache.entries.contains_key(path) && cache.entries[path].query != query ==> collides(
            loaded(cache, path, query, contents),
        ),
        !cache.entries.contains_key(path) && contents is Ok && descriptor_in(contents->Ok_0)
            is Some && descriptor_in(contents->Ok_0)->Some_0.query != query ==> collides(
            loaded(cache, path, query, contents),
        ),
        loaded(cache, path, query, contents) is Ok ==> loaded(cache, path, query, contents)->Ok_0.query
            == query,
{
}

/// The file is looked at once: after a descriptor was loaded for a path,
/// loading that path again for the same query gives the same descriptor,
/// whatever has become of the file, and leaves the cache as it is.
pub proof fn lemma_second_load_comes_from_the_cache(
    cache: OfflineCacheView,
    path: Seq<char>,
    query: Seq<char>,
    contents: Result<Seq<char>, Seq<char>>,
    later_contents: Result<Seq<char>, Seq<char>>,
)
    requires
        loaded(cache, path, query, contents) is Ok,
    ensures
        ({
            let data = loaded(cache, path, query, contents)->Ok_0;
            let after = OfflineCacheView {
                supported: cache.supported,
                entries: cache.entries.insert(path, data),
            };
            &&& loaded(after, path, query, later_contents) == Ok::<QueryDataView, Rejection>(data)
            &&& after.entries.insert(path, data) == after.entries
        }),
{
    let data = loaded(cache, path, query, contents)->Ok_0;
    assert(cache.entries.insert(path, data).insert(path, data) =~= cache.entries.insert(path, data));
}

/// Two descriptors of one query text are saved under one file name, so
/// that saving a query again leaves one file.
pub proof fn lemma_same_query_same_file(first: QueryDataView, second: QueryDataView)
    requires
        first.wf(),
        second.wf(),
        first.query == second.query,
    ensures
        data_file_name(first.hash) == data_file_name(second.hash),
{
}

} // verus!
