//! The link store: a durable, uniquely keyed mapping from short key to
//! URL, backed by a SQLite database reached through `rusqlite`.
//!
//! The store owns its connection exclusively for the life of the process;
//! all access to the backing table goes through the methods here, so the
//! mapping a connection holds is modelled as a function of the connection
//! value itself.

use vstd::prelude::*;

verus! {

/// A store or key-generation operation that did not succeed.
#[derive(Clone, Copy, Debug, PartialEq, Eq, Structural)]
pub enum StoreError {
    /// The key is already mapped; the existing row was left untouched.
    KeyConflict,
    /// The backing medium could not be reached, read or written.
    StoreUnavailable,
    /// The wall clock could not give a time after the epoch; a fatal,
    /// startup-class condition of the key generator, not of the store.
    ClockUnavailable,
}

#[verifier::external_type_specification]
#[verifier::external_body]
pub struct ExConnection(rusqlite::Connection);

/// The mapping held by the `links` table reachable through `c`: each key
/// to the URL stored for it, both as character strings; empty where no
/// `links` table exists. Meaningful only while the connection is the sole
/// way to that database, which is how this module holds it.
pub uninterp spec fn links_of(c: rusqlite::Connection) -> Map<Seq<char>, Seq<char>>;

/// Whether the database reachable through `c` holds a `links` table of
/// this module's shape: a `key` column under a unique primary key and a
/// non-null `uri` column.
pub uninterp spec fn schema_ok(c: rusqlite::Connection) -> bool;

/// Whether the database reachable through `c` holds no `links` table other
/// than one created by this module's own schema statement. A fresh
/// database has no tables at all; a database written by some other
/// application may hold a `links` table of another shape, which this
/// store cannot adopt -- `CREATE TABLE IF NOT EXISTS` would leave it
/// standing, without the unique primary key everything here rests on.
pub uninterp spec fn no_foreign_links_table(c: rusqlite::Connection) -> bool;

/// The empty mapping: what a database with no `links` rows holds.
pub open spec fn no_links() -> Map<Seq<char>, Seq<char>> {
    Map::empty()
}

/// Relies on `rusqlite::Connection::open_in_memory`: a fresh in-memory
/// database starts with no tables, so no `links` rows and no foreign
/// `links` table.
#[verifier::external_body]
fn open_memory_connection() -> (r: Result<rusqlite::Connection, StoreError>)
    ensures
        r is Ok ==> links_of(r->Ok_0) == no_links(),
        r is Ok ==> no_foreign_links_table(r->Ok_0),
        r is Err ==> r->Err_0 == StoreError::StoreUnavailable,
{
    match rusqlite::Connection::open_in_memory() {
        Ok(c) => Ok(c),
        Err(_) => Err(StoreError::StoreUnavailable),
    }
}

/// Relies on `rusqlite::Connection::execute` running `CREATE TABLE IF NOT
/// EXISTS`: idempotent, never drops or alters rows, and on success the
/// `links` table exists. That the table then has this module's shape is
/// owed only where no foreign `links` table stands, which the `requires`
/// demands: the statement would leave such a table as it found it.
#[verifier::external_body]
fn ensure_links_table(conn: &mut rusqlite::Connection) -> (r: Result<(), StoreError>)
    requires
        no_foreign_links_table(*old(conn)),
    ensures
        links_of(*final(conn)) == links_of(*old(conn)),
        no_foreign_links_table(*final(conn)),
        r is Ok ==> schema_ok(*final(conn)),
        r is Err ==> r->Err_0 == StoreError::StoreUnavailable,
{
    let outcome = conn.execute(
        "CREATE TABLE IF NOT EXISTS links (key TEXT PRIMARY KEY, uri TEXT NOT NULL)",
        (),
    );
    match outcome {
        Ok(_) => Ok(()),
        Err(_) => Err(StoreError::StoreUnavailable),
    }
}

/// Relies on `rusqlite::Connection::execute` running a single-row INSERT
/// and on SQLite's unique primary key on `links.key`: the row either fully
/// lands (only where the key was absent) or nothing changes, a present key
/// always makes the insert fail, and a constraint violation is reported
/// only for a present key. Where the medium itself fails first -- read
/// only, disk full -- the failure is the medium's, not a conflict.
#[verifier::external_body]
fn insert_row(conn: &mut rusqlite::Connection, key: &str, uri: &str) -> (r: Result<
    (),
    StoreError,
>)
    requires
        schema_ok(*old(conn)),
    ensures
        schema_ok(*final(conn)),
        r is Ok ==> !links_of(*old(conn)).contains_key(key@) && links_of(*final(conn))
            == links_of(*old(conn)).insert(key@, uri@),
        r is Err ==> links_of(*final(conn)) == links_of(*old(conn)),
        r == Err::<(), StoreError>(StoreError::KeyConflict) ==> links_of(*old(conn)).contains_key(
            key@,
        ),
        links_of(*old(conn)).contains_key(key@) ==> r is Err,
        r is Err ==> r->Err_0 == StoreError::KeyConflict || r->Err_0 == StoreError::StoreUnavailable,
{
    match conn.execute("INSERT INTO links (key, uri) VALUES (?1, ?2)", (key, uri)) {
        Ok(_) => Ok(()),
        Err(rusqlite::Error::SqliteFailure(e, _)) if e.code
            == rusqlite::ErrorCode::ConstraintViolation => Err(StoreError::KeyConflict),
        Err(_) => Err(StoreError::StoreUnavailable),
    }
}

/// Relies on `rusqlite::Connection::query_row` with a point SELECT on the
/// primary key: the stored `uri` where the key is present, no row where it
/// is absent. The closure handed to `query_row` only picks the selected
/// column out of the row, through `Row::get`.
#[verifier::external_body]
fn select_row(conn: &rusqlite::Connection, key: &str) -> (r: Result<Option<String>, StoreError>)
    requires
        schema_ok(*conn),
    ensures
        r is Ok && r->Ok_0 is Some ==> links_of(*conn).contains_key(key@) && (r->Ok_0->Some_0)@
            == links_of(*conn)[key@],
        r is Ok && r->Ok_0 is None ==> !links_of(*conn).contains_key(key@),
        r is Err ==> r->Err_0 == StoreError::StoreUnavailable,
{
    let outcome = conn.query_row(
        "SELECT uri FROM links WHERE key = ?1",
        [key],
        |row| row.get::<usize, String>(0),
    );
    match outcome {
        Ok(uri) => Ok(Some(uri)),
        Err(rusqlite::Error::QueryReturnedNoRows) => Ok(None),
        Err(_) => Err(StoreError::StoreUnavailable),
    }
}

/// A durable mapping from short key to URL. A key, once created, is never
/// overwritten, altered or removed through this store; the only transition
/// a key knows is absent to present.
pub struct LinkStore {
    conn: rusqlite::Connection,
}

impl View for LinkStore {
    type V = Map<Seq<char>, Seq<char>>;

    closed spec fn view(&self) -> Map<Seq<char>, Seq<char>> {
        links_of(self.conn)
    }
}

impl LinkStore {
    /// Whether the store is ready for use: its schema is in place.
    pub closed spec fn wf(self) -> bool {
        schema_ok(self.conn)
    }

    /// Takes over an opened database connection and idempotently ensures
    /// the `links` schema exists; rows already present are kept, so a
    /// process restart against an existing database loses nothing. The
    /// database must be the store's own: one holding a `links` table some
    /// other application shaped cannot be adopted, and handing one in
    /// voids every guarantee here.
    pub fn new(conn: rusqlite::Connection) -> (r: Result<LinkStore, StoreError>)
        requires
            no_foreign_links_table(conn),
        ensures
            r matches Ok(s) ==> s.wf() && s@ == links_of(conn),
            r matches Err(e) ==> e == StoreError::StoreUnavailable,
    {
        let mut conn = conn;
        match ensure_links_table(&mut conn) {
            Ok(()) => Ok(LinkStore { conn }),
            Err(e) => Err(e),
        }
    }

    /// Opens a fresh store in memory: ready for use and mapping nothing.
    pub fn open_in_memory() -> (r: Result<LinkStore, StoreError>)
        ensures
            r matches Ok(s) ==> s.wf() && s@ == Map::<Seq<char>, Seq<char>>::empty(),
            r matches Err(e) ==> e == StoreError::StoreUnavailable,
    {
        match open_memory_connection() {
            Ok(conn) => LinkStore::new(conn),
            Err(e) => Err(e),
        }
    }

    /// Inserts the pair durably. Succeeds only where `key` was absent, and
    /// then exactly adds that one mapping; a present key always makes the
    /// call fail and is never overwritten, and `KeyConflict` is reported
    /// only for a present key -- a failure of the medium itself comes back
    /// as `StoreUnavailable`. On any failure the mapping is exactly what it
    /// was: no partial write is ever observable.
    pub fn create(&mut self, key: &str, uri: &str) -> (r: Result<(), StoreError>)
        requires
            old(self).wf(),
        ensures
            final(self).wf(),
            r is Ok ==> !old(self)@.contains_key(key@) && final(self)@ == old(self)@.insert(
                key@,
                uri@,
            ),
            r is Err ==> final(self)@ == old(self)@,
            r == Err::<(), StoreError>(StoreError::KeyConflict) ==> old(self)@.contains_key(key@),
            old(self)@.contains_key(key@) ==> r is Err,
            r matches Err(e) ==> e == StoreError::KeyConflict || e == StoreError::StoreUnavailable,
    {
        insert_row(&mut self.conn, key, uri)
    }

    /// Looks `key` up. Where the lookup completes, it returns exactly the
    /// URL stored for `key`, and explicit absence -- not an error -- where
    /// no create for `key` ever committed.
    pub fn resolve(&self, key: &str) -> (r: Result<Option<String>, StoreError>)
        requires
            self.wf(),
        ensures
            r matches Ok(Some(uri)) ==> self@.contains_key(key@) && uri@ == self@[key@],
            r matches Ok(None) ==> !self@.contains_key(key@),
            r matches Err(e) ==> e == StoreError::StoreUnavailable,
    {
        select_row(&self.conn, key)
    }
}

/// Law: before any create for `key`, the mapping does not contain `key`,
/// so `resolve`, by its contract, can only answer with explicit absence.
pub proof fn lemma_fresh_store_has_no_keys(key: Seq<char>)
    ensures
        !Map::<Seq<char>, Seq<char>>::empty().contains_key(key),
{
}

/// Law: after a create of `key` to `uri` succeeds, the mapping contains
/// `key` and holds exactly `uri` for it, so every later `resolve` of
/// `key`, by its contract and from any caller, answers `uri` -- until the
/// mapping changes, which for `key` it never does: `create` is the only
/// mutation, and it refuses a present key.
pub proof fn lemma_created_key_resolves(
    m: Map<Seq<char>, Seq<char>>,
    key: Seq<char>,
    uri: Seq<char>,
)
    ensures
        m.insert(key, uri).contains_key(key),
        m.insert(key, uri)[key] == uri,
{
}

/// Law: a second create with the same key meets a mapping that already
/// contains it, so by `create`'s contract the call fails -- as
/// `KeyConflict` wherever the medium itself is not what failed -- and
/// leaves the mapping unchanged: the first URL still stands, never
/// silently replaced. Two same-key creates can therefore never both
/// succeed, however they interleave: whichever commits second sees the
/// key present, and its URL never lands.
pub proof fn lemma_second_create_conflicts(
    m: Map<Seq<char>, Seq<char>>,
    key: Seq<char>,
    uri1: Seq<char>,
)
    ensures
        m.insert(key, uri1).contains_key(key),
        m.insert(key, uri1)[key] == uri1,
{
}

/// Law: creates with distinct keys do not disturb one another: inserting
/// one key leaves the other exactly as it was, so two such creates, in
/// either order, both succeed on absent keys and both pairs are
/// afterwards resolvable, with no lost write.
pub proof fn lemma_distinct_creates_coexist(
    m: Map<Seq<char>, Seq<char>>,
    key1: Seq<char>,
    uri1: Seq<char>,
    key2: Seq<char>,
    uri2: Seq<char>,
)
    requires
        key1 != key2,
    ensures
        m.insert(key1, uri1).contains_key(key2) == m.contains_key(key2),
        m.insert(key1, uri1).insert(key2, uri2)[key1] == uri1,
        m.insert(key1, uri1).insert(key2, uri2)[key2] == uri2,
        m.insert(key1, uri1).insert(key2, uri2).contains_key(key1),
        m.insert(key1, uri1).insert(key2, uri2).contains_key(key2),
{
}

} // verus!
