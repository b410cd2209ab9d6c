//! The on-disk data directory and the names of the files inside it.
use vstd::prelude::*;

use crate::text::{push_bytes, str_bytes};
use vstd::string::StringSliceAdditionalSpecFns;

verus! {

/// `dir` and `name` joined by one separator.
pub open spec fn joined_path(dir: Seq<u8>, name: Seq<u8>) -> Seq<u8> {
    dir + seq!['/' as u8] + name
}

/// Joins a directory and a file name.
pub fn join_path(dir: &[u8], name: &str) -> (v: Vec<u8>)
    ensures
        v@ == joined_path(dir@, name.spec_bytes()),
{
    let mut v: Vec<u8> = Vec::new();
    push_bytes(&mut v, dir);
    v.push(47);
    let n = str_bytes(name);
    push_bytes(&mut v, n.as_slice());
    assert(v@ =~= joined_path(dir@, name.spec_bytes()));
    v
}

/// The data directory holding the configuration and the local databases.
/// That the directory exists on disk is the caller's to ensure.
pub struct StrideDirectory {
    pub data_dir: Vec<u8>,
}

impl StrideDirectory {
    /// A handle on the given data directory.
    pub fn try_new(data_dir: Vec<u8>) -> (r: Self)
        ensures
            r.data_dir@ == data_dir@,
    {
        StrideDirectory { data_dir }
    }

    /// A handle on the default data directory, `.stride`.
    pub fn try_default() -> (r: Self)
        ensures
            r.data_dir@ == ".stride".spec_bytes(),
    {
        StrideDirectory { data_dir: str_bytes(".stride") }
    }

    pub fn data_dir(&self) -> (r: &Vec<u8>)
        ensures
            r@ == self.data_dir@,
    {
        &self.data_dir
    }

    pub fn config_file(&self) -> (r: Vec<u8>)
        ensures
            r@ == joined_path(self.data_dir@, "config.json".spec_bytes()),
    {
        join_path(self.data_dir.as_slice(), "config.json")
    }

    pub fn db_meta_file(&self) -> (r: Vec<u8>)
        ensures
            r@ == joined_path(self.data_dir@, "metadata.db".spec_bytes()),
    {
        join_path(self.data_dir.as_slice(), "metadata.db")
    }

    pub fn db_cache_file(&self) -> (r: Vec<u8>)
        ensures
            r@ == joined_path(self.data_dir@, "cache.db".spec_bytes()),
    {
        join_path(self.data_dir.as_slice(), "cache.db")
    }

    pub fn db_instance_file(&self) -> (r: Vec<u8>)
        ensures
            r@ == joined_path(self.data_dir@, "instances.db".spec_bytes()),
    {
        join_path(self.data_dir.as_slice(), "instances.db")
    }
}

/// The name of one run's log directory under the log base:
/// `<base>/<timestamp>_<runuuid>`.
pub open spec fn run_dir_spec(base: Seq<u8>, timestamp: Seq<u8>, run_uuid: Seq<u8>) -> Seq<u8> {
    base + seq!['/' as u8] + timestamp + seq!['_' as u8] + run_uuid
}

/// Builds the name of one run's log directory.
pub fn run_dir_name(base: &[u8], timestamp: &[u8], run_uuid: &[u8]) -> (v: Vec<u8>)
    ensures
        v@ == run_dir_spec(base@, timestamp@, run_uuid@),
{
    let mut v: Vec<u8> = Vec::new();
    push_bytes(&mut v, base);
    v.push(47);
    push_bytes(&mut v, timestamp);
    v.push(95);
    push_bytes(&mut v, run_uuid);
    assert(v@ =~= run_dir_spec(base@, timestamp@, run_uuid@));
    v
}

} // verus!
