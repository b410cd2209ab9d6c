//! The instance-body store: a local database keyed by data id, filled from
//! the origin on a miss. The database calls are trusted against the backing
//! crate; the cache discipline around them is verified.
use vstd::prelude::*;

use crate::ids::DId;

verus! {

/// The backing crate's error, carried through to the caller.
#[verifier::external_type_specification]
#[verifier::external_body]
pub struct ExSqliteError(rusqlite::Error);

/// Why a store operation failed.
#[derive(Debug)]
pub enum StoreError {
    /// The underlying database reported an error.
    Database(rusqlite::Error),
}

/// The local keyed store of instance bodies, backed by one database file
/// with a table `InstanceData(did INT PRIMARY KEY, data LONGBLOB)`.
///
/// The contracts below describe the store through what this handle holds;
/// they speak for a file that no other handle writes while this one is
/// open, which is how a run uses it: one store, writes serialised through
/// it.
#[verifier::external_body]
pub struct InstanceDataDB {
    conn: rusqlite::Connection,
}

/// What the store holds: the body filed under each data id.
pub uninterp spec fn store_contents(db: InstanceDataDB) -> Map<u32, Seq<u8>>;

impl InstanceDataDB {
    /// Relies on `rusqlite::Connection::open`: opens the database file,
    /// creating an empty file when none exists. What the store then holds is
    /// whatever the file held.
    #[verifier::external_body]
    pub fn open(path: &str) -> (r: Result<InstanceDataDB, StoreError>) {
        match rusqlite::Connection::open(std::path::Path::new(path)) {
            Ok(conn) => Ok(InstanceDataDB { conn }),
            Err(e) => Err(StoreError::Database(e)),
        }
    }

    /// Relies on `rusqlite::Connection::execute` with `CREATE TABLE`: on
    /// success the table is newly created, so the store is empty; on failure
    /// nothing changed.
    #[verifier::external_body]
    pub fn create_table(&mut self) -> (r: Result<(), StoreError>)
        ensures
            match r {
                Ok(_) => store_contents(*final(self)) == Map::<u32, Seq<u8>>::empty(),
                Err(_) => store_contents(*final(self)) == store_contents(*old(self)),
            },
    {
        match self.conn.execute(
            "CREATE TABLE InstanceData ( did INT PRIMARY KEY, data LONGBLOB);",
            [],
        ) {
            Ok(_) => Ok(()),
            Err(e) => Err(StoreError::Database(e)),
        }
    }

    /// Relies on `rusqlite::Connection::query_row` with a `SELECT` by
    /// primary key: returns the body filed under the data id, or nothing.
    #[verifier::external_body]
    fn fetch_row(&self, did: u32) -> (r: Result<Option<Vec<u8>>, StoreError>)
        ensures
            match r {
                Ok(Some(body)) => store_contents(*self).dom().contains(did) && body@
                    == store_contents(*self)[did],
                Ok(None) => !store_contents(*self).dom().contains(did),
                Err(_) => true,
            },
    {
        let row: Result<Vec<u8>, rusqlite::Error> = self.conn.query_row(
            "SELECT data FROM InstanceData WHERE did = ?1 LIMIT 1",
            [did],
            |row| row.get(0),
        );
        match row {
            Ok(data) => Ok(Some(data)),
            Err(rusqlite::Error::QueryReturnedNoRows) => Ok(None),
            Err(e) => Err(StoreError::Database(e)),
        }
    }

    /// Relies on `rusqlite::Connection::execute` with an `INSERT` on the
    /// primary key: on success the body is filed under the data id; a
    /// constraint violation means a row with that id was already present and
    /// stays; on failure nothing changed.
    #[verifier::external_body]
    fn insert_row(&mut self, did: u32, data: &[u8]) -> (r: Result<(), StoreError>)
        ensures
            r is Ok ==> store_contents(*final(self)) == if store_contents(
                *old(self),
            ).dom().contains(did) {
                store_contents(*old(self))
            } else {
                store_contents(*old(self)).insert(did, data@)
            },
            r is Err ==> store_contents(*final(self)) == store_contents(*old(self)),
    {
        match self.conn.execute(
            "INSERT INTO InstanceData (did, data) VALUES (?1, ?2)",
            (did, data),
        ) {
            Ok(_) => Ok(()),
            Err(rusqlite::Error::SqliteFailure(e, _))
                if e.code == rusqlite::ErrorCode::ConstraintViolation => Ok(()),
            Err(e) => Err(StoreError::Database(e)),
        }
    }

    /// Relies on `rusqlite::Connection::execute` (`ATTACH`) and
    /// `execute_batch` (`INSERT OR IGNORE ... ; DETACH`): rows of the other
    /// store file join this one, and rows already present are kept as they
    /// are, whether the merge succeeds or not.
    #[verifier::external_body]
    pub fn add_from_db_file(&mut self, path: &str) -> (r: Result<(), StoreError>)
        ensures
            forall|d: u32|
                store_contents(*old(self)).dom().contains(d) ==> store_contents(
                    *final(self),
                ).dom().contains(d) && store_contents(*final(self))[d] == store_contents(
                    *old(self),
                )[d],
    {
        if let Err(e) = self.conn.execute("ATTACH ?1 as download", (path,)) {
            return Err(StoreError::Database(e));
        }
        match self.conn.execute_batch(
            "INSERT OR IGNORE INTO InstanceData (did, data) SELECT did, data FROM download.InstanceData; DETACH download;",
        ) {
            Ok(()) => Ok(()),
            Err(e) => Err(StoreError::Database(e)),
        }
    }

    /// The cached body under a data id, if the store holds one. A hit never
    /// contacts the origin.
    pub fn fetch_cached(&self, did: DId) -> (r: Result<Option<Vec<u8>>, StoreError>)
        ensures
            match r {
                Ok(Some(body)) => store_contents(*self).dom().contains(did.0) && body@
                    == store_contents(*self)[did.0],
                Ok(None) => !store_contents(*self).dom().contains(did.0),
                Err(_) => true,
            },
    {
        self.fetch_row(did.0)
    }

    /// Files a body fetched from the origin under its data id. When another
    /// job already filed the same id, the body already present stays: the
    /// store never overwrites.
    pub fn store_fetched(&mut self, did: DId, body: &[u8]) -> (r: Result<(), StoreError>)
        ensures
            r is Ok ==> store_contents(*final(self)) == if store_contents(
                *old(self),
            ).dom().contains(did.0) {
                store_contents(*old(self))
            } else {
                store_contents(*old(self)).insert(did.0, body@)
            },
            r is Ok ==> store_contents(*final(self)).dom().contains(did.0),
            r is Err ==> store_contents(*final(self)) == store_contents(*old(self)),
    {
        let r = self.insert_row(did.0, body);
        proof {
            if r is Ok {
                if !store_contents(*old(self)).dom().contains(did.0) {
                    assert(store_contents(*self).dom().contains(did.0));
                }
            }
        }
        r
    }
}

/// Once a body is filed under a fresh data id, looking that id up yields the
/// very same bytes: what `store_fetched` filed is what `fetch_cached`
/// returns, byte for byte, with no word from the origin.
pub proof fn lemma_store_round_trip(m: Map<u32, Seq<u8>>, did: u32, body: Seq<u8>)
    requires
        !m.dom().contains(did),
    ensures
        m.insert(did, body).dom().contains(did),
        m.insert(did, body)[did] == body,
{
}

} // verus!
