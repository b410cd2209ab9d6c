use stride_runner_domset::ids::{DId, IId};
use stride_runner_domset::meta::{DangerousRawClause, MetaDataDB};
use stride_runner_domset::store::InstanceDataDB;
use tempdir::TempDir;

const PREFIX: &str = "stride-store-test";
const REF_DATA: &[u8] = b"p ds 9 8\n1 3\n1 4\n1 7\n2 8\n3 9\n4 8\n4 9\n5 6\n";

fn fresh_store(dir: &TempDir) -> InstanceDataDB {
    let path = dir.path().join("test.db");
    let mut db = InstanceDataDB::open(path.to_str().unwrap()).unwrap();
    db.create_table().unwrap();
    db
}

#[test]
fn store_round_trip() {
    // A body filed under a data id comes back byte-identical, with no word
    // from the origin.
    let dir = TempDir::new(PREFIX).unwrap();
    let mut db = fresh_store(&dir);
    assert_eq!(db.fetch_cached(DId(1670)).unwrap(), None);
    db.store_fetched(DId(1670), REF_DATA).unwrap();
    assert_eq!(db.fetch_cached(DId(1670)).unwrap(), Some(REF_DATA.to_vec()));
    assert_eq!(db.fetch_cached(DId(1671)).unwrap(), None);
}

#[test]
fn duplicate_insert_keeps_first_body() {
    // Two jobs may both miss on the same new data id; the second insert is
    // treated as already present and the first body stays.
    let dir = TempDir::new(PREFIX).unwrap();
    let mut db = fresh_store(&dir);
    db.store_fetched(DId(1), b"Hello").unwrap();
    db.store_fetched(DId(1), b"Changed").unwrap();
    assert_eq!(db.fetch_cached(DId(1)).unwrap(), Some(b"Hello".to_vec()));
}

#[test]
fn store_persists_across_handles() {
    let dir = TempDir::new(PREFIX).unwrap();
    let path = dir.path().join("test.db");
    {
        let mut db = InstanceDataDB::open(path.to_str().unwrap()).unwrap();
        db.create_table().unwrap();
        db.store_fetched(DId(7), b"body").unwrap();
    }
    let db = InstanceDataDB::open(path.to_str().unwrap()).unwrap();
    assert_eq!(db.fetch_cached(DId(7)).unwrap(), Some(b"body".to_vec()));
}

#[test]
fn merge_from_other_store() {
    let dir = TempDir::new(PREFIX).unwrap();
    let other_path = dir.path().join("other.db");
    {
        let mut other = InstanceDataDB::open(other_path.to_str().unwrap()).unwrap();
        other.create_table().unwrap();
        other.store_fetched(DId(1), b"theirs").unwrap();
        other.store_fetched(DId(2), b"extra").unwrap();
    }
    let mut db = fresh_store(&dir);
    db.store_fetched(DId(1), b"mine").unwrap();
    db.add_from_db_file(other_path.to_str().unwrap()).unwrap();
    // Rows already present stay; missing rows join.
    assert_eq!(db.fetch_cached(DId(1)).unwrap(), Some(b"mine".to_vec()));
    assert_eq!(db.fetch_cached(DId(2)).unwrap(), Some(b"extra".to_vec()));
}

fn write_metadata(path: &str) {
    let conn = rusqlite::Connection::open(std::path::Path::new(path)).unwrap();
    conn.execute_batch(
        "CREATE TABLE Instance (iid INT PRIMARY KEY, data_did INT, nodes INT, edges INT, \
         best_score INT, diameter INT, treewidth INT, planar BOOL, bipartite BOOL);\
         INSERT INTO Instance VALUES (1582, 1670, 9, 8, 3, NULL, 2, 1, NULL);\
         INSERT INTO Instance VALUES (7, 8, 4, 3, NULL, NULL, NULL, NULL, 0);",
    )
    .unwrap();
}

#[test]
fn metadata_fetches() {
    let dir = TempDir::new(PREFIX).unwrap();
    let path = dir.path().join("metadata.db");
    write_metadata(path.to_str().unwrap());
    let db = MetaDataDB::new(path.to_str().unwrap()).unwrap();

    let m = db.fetch_instance(IId(1582)).unwrap();
    assert_eq!(m.iid, IId(1582));
    assert_eq!(m.data_did, DId(1670));
    assert_eq!(m.nodes, 9);
    assert_eq!(m.edges, 8);
    assert_eq!(m.best_score, Some(3));
    assert_eq!(m.diameter, None);
    assert_eq!(m.treewidth, Some(2));
    assert_eq!(m.planar, Some(true));
    assert_eq!(m.bipartite, None);

    assert_eq!(db.fetch_did_of_iid(IId(7)).unwrap(), DId(8));
    assert!(db.fetch_instance(IId(9999)).is_err());

    let mut all = db
        .fetch_instance_iids_from_db(DangerousRawClause("1=1"))
        .unwrap();
    all.sort();
    assert_eq!(all, vec![7, 1582]);
    let some = db
        .fetch_instance_iids_from_db(DangerousRawClause("nodes > 5"))
        .unwrap();
    assert_eq!(some, vec![1582]);
}
