//! Read-only access to per-instance metadata, and the environment a solver
//! child sees for its instance.
use vstd::prelude::*;

use crate::ids::{DId, IId};
use crate::store::StoreError;
use crate::text::{push_bytes, str_bytes, u32_to_dec, u64_to_dec, dec_rep};
use vstd::string::StringSliceAdditionalSpecFns;

verus! {

/// The metadata record of one instance.
#[derive(Debug, Clone)]
pub struct InstanceModel {
    pub iid: IId,
    pub data_did: DId,
    pub nodes: u32,
    pub edges: u32,
    pub best_score: Option<u32>,
    pub diameter: Option<u32>,
    pub treewidth: Option<u32>,
    pub planar: Option<bool>,
    pub bipartite: Option<bool>,
}

/// A filter expression run verbatim against the metadata store; the user
/// owns the file, so the text is taken as given.
pub struct DangerousRawClause<'a>(pub &'a str);

/// The read-only metadata database.
#[verifier::external_body]
pub struct MetaDataDB {
    conn: rusqlite::Connection,
}

impl MetaDataDB {
    /// Relies on `rusqlite::Connection::open_with_flags` with the read-only
    /// flag: opens the metadata database file.
    #[verifier::external_body]
    pub fn new(path: &str) -> (r: Result<MetaDataDB, StoreError>)
    {
        match rusqlite::Connection::open_with_flags(
            std::path::Path::new(path),
            rusqlite::OpenFlags::SQLITE_OPEN_READ_ONLY,
        ) {
            Ok(conn) => Ok(MetaDataDB { conn }),
            Err(e) => Err(StoreError::Database(e)),
        }
    }

    /// Relies on `rusqlite::Connection::query_row` with a `SELECT` of
    /// `data_did` by instance id: the current data id of the instance.
    #[verifier::external_body]
    pub fn fetch_did_of_iid(&self, iid: IId) -> (r: Result<DId, StoreError>)
    {
        let row: Result<u32, rusqlite::Error> = self.conn.query_row(
            "SELECT data_did FROM Instance WHERE iid = ?1 LIMIT 1",
            [iid.0],
            |row| row.get(0),
        );
        match row {
            Ok(did) => Ok(DId(did)),
            Err(e) => Err(StoreError::Database(e)),
        }
    }

    /// Relies on `rusqlite::Connection::query_row` with a `SELECT` of the
    /// instance row by id: the record carries the id it was asked for.
    #[verifier::external_body]
    pub fn fetch_instance(&self, iid: IId) -> (r: Result<InstanceModel, StoreError>)
        ensures
            r matches Ok(m) ==> m.iid == iid,
    {
        let row = self.conn.query_row(
            "SELECT iid, data_did, nodes, edges, best_score, diameter, treewidth, planar, bipartite FROM Instance WHERE iid = ?1",
            [iid.0],
            |row| Ok(InstanceModel {
                iid: IId(iid.0), data_did: DId(row.get(1)?), nodes: row.get(2)?,
                edges: row.get(3)?, best_score: row.get(4)?, diameter: row.get(5)?,
                treewidth: row.get(6)?, planar: row.get(7)?, bipartite: row.get(8)?,
            }),
        );
        row.map_err(StoreError::Database)
    }

    /// Relies on `rusqlite::Connection::prepare` and `Statement::query_map`
    /// with the user's filter spliced into the `WHERE` clause: the ids the
    /// filter selected, in whatever order the store returned them.
    #[verifier::external_body]
    pub fn fetch_instance_iids_from_db(&self, clause: DangerousRawClause<'_>) -> (r: Result<
        Vec<u32>,
        StoreError,
    >)
    {
        let sql = format!("SELECT iid FROM Instance WHERE {}", clause.0);
        let run = || -> Result<Vec<u32>, rusqlite::Error> {
            let mut stmt = self.conn.prepare(&sql)?;
            let rows = stmt.query_map([], |row| row.get(0))?;
            rows.collect()
        };
        run().map_err(StoreError::Database)
    }
}

/// The serialisation of a boolean in the child environment.
pub open spec fn bool_name_spec(b: bool) -> Seq<u8> {
    if b {
        "true".spec_bytes()
    } else {
        "false".spec_bytes()
    }
}

fn bool_name(b: bool) -> (v: Vec<u8>)
    ensures
        v@ == bool_name_spec(b),
{
    if b {
        str_bytes("true")
    } else {
        str_bytes("false")
    }
}

/// One optional environment entry: present exactly when the value is.
pub open spec fn opt_u32_env(name: Seq<u8>, v: Option<u32>) -> Seq<(Seq<u8>, Seq<u8>)> {
    match v {
        Some(x) => seq![(name, dec_rep(x as nat))],
        None => Seq::empty(),
    }
}

/// One optional boolean environment entry.
pub open spec fn opt_bool_env(name: Seq<u8>, v: Option<bool>) -> Seq<(Seq<u8>, Seq<u8>)> {
    match v {
        Some(x) => seq![(name, bool_name_spec(x))],
        None => Seq::empty(),
    }
}

/// The environment entries that describe one instance: the id, the node and
/// edge counts, and whichever optional attributes the metadata store holds.
pub open spec fn instance_env_spec(inst: InstanceModel) -> Seq<(Seq<u8>, Seq<u8>)> {
    seq![
        ("STRIDE_IID".spec_bytes(), dec_rep(inst.iid.0 as nat)),
        ("STRIDE_NODES".spec_bytes(), dec_rep(inst.nodes as nat)),
        ("STRIDE_EDGES".spec_bytes(), dec_rep(inst.edges as nat)),
    ] + opt_u32_env("STRIDE_BEST_SCORE".spec_bytes(), inst.best_score) + opt_u32_env(
        "STRIDE_DIAMETER".spec_bytes(),
        inst.diameter,
    ) + opt_u32_env("STRIDE_TREEWIDTH".spec_bytes(), inst.treewidth) + opt_bool_env(
        "STRIDE_PLANAR".spec_bytes(),
        inst.planar,
    ) + opt_bool_env("STRIDE_BIPARTITE".spec_bytes(), inst.bipartite)
}

fn push_u32_env(env: &mut Vec<(Vec<u8>, Vec<u8>)>, name: &str, v: u32)
    ensures
        final(env)@.map_values(|p: (Vec<u8>, Vec<u8>)| (p.0@, p.1@)) == old(env)@.map_values(
            |p: (Vec<u8>, Vec<u8>)| (p.0@, p.1@),
        ).push((name.spec_bytes(), dec_rep(v as nat))),
{
    let ghost prev = env@.map_values(|p: (Vec<u8>, Vec<u8>)| (p.0@, p.1@));
    env.push((str_bytes(name), u32_to_dec(v)));
    assert(env@.map_values(|p: (Vec<u8>, Vec<u8>)| (p.0@, p.1@)) =~= prev.push(
        (name.spec_bytes(), dec_rep(v as nat)),
    ));
}

fn push_opt_u32_env(env: &mut Vec<(Vec<u8>, Vec<u8>)>, name: &str, v: Option<u32>)
    ensures
        final(env)@.map_values(|p: (Vec<u8>, Vec<u8>)| (p.0@, p.1@)) == old(env)@.map_values(
            |p: (Vec<u8>, Vec<u8>)| (p.0@, p.1@),
        ) + opt_u32_env(name.spec_bytes(), v),
{
    let ghost prev = env@.map_values(|p: (Vec<u8>, Vec<u8>)| (p.0@, p.1@));
    match v {
        Some(x) => {
            env.push((str_bytes(name), u32_to_dec(x)));
            assert(env@.map_values(|p: (Vec<u8>, Vec<u8>)| (p.0@, p.1@)) =~= prev + opt_u32_env(
                name.spec_bytes(),
                v,
            ));
        },
        None => {
            assert(env@.map_values(|p: (Vec<u8>, Vec<u8>)| (p.0@, p.1@)) =~= prev + opt_u32_env(
                name.spec_bytes(),
                v,
            ));
        },
    }
}

fn push_opt_bool_env(env: &mut Vec<(Vec<u8>, Vec<u8>)>, name: &str, v: Option<bool>)
    ensures
        final(env)@.map_values(|p: (Vec<u8>, Vec<u8>)| (p.0@, p.1@)) == old(env)@.map_values(
            |p: (Vec<u8>, Vec<u8>)| (p.0@, p.1@),
        ) + opt_bool_env(name.spec_bytes(), v),
{
    let ghost prev = env@.map_values(|p: (Vec<u8>, Vec<u8>)| (p.0@, p.1@));
    match v {
        Some(x) => {
            env.push((str_bytes(name), bool_name(x)));
            assert(env@.map_values(|p: (Vec<u8>, Vec<u8>)| (p.0@, p.1@)) =~= prev + opt_bool_env(
                name.spec_bytes(),
                v,
            ));
        },
        None => {
            assert(env@.map_values(|p: (Vec<u8>, Vec<u8>)| (p.0@, p.1@)) =~= prev + opt_bool_env(
                name.spec_bytes(),
                v,
            ));
        },
    }
}

/// Builds the environment entries that describe one instance.
pub fn instance_to_env(inst: &InstanceModel) -> (env: Vec<(Vec<u8>, Vec<u8>)>)
    ensures
        env@.map_values(|p: (Vec<u8>, Vec<u8>)| (p.0@, p.1@)) == instance_env_spec(*inst),
{
    let mut env: Vec<(Vec<u8>, Vec<u8>)> = Vec::new();
    assert(env@.map_values(|p: (Vec<u8>, Vec<u8>)| (p.0@, p.1@)) =~= Seq::<
        (Seq<u8>, Seq<u8>),
    >::empty());
    push_u32_env(&mut env, "STRIDE_IID", inst.iid.0);
    push_u32_env(&mut env, "STRIDE_NODES", inst.nodes);
    push_u32_env(&mut env, "STRIDE_EDGES", inst.edges);
    push_opt_u32_env(&mut env, "STRIDE_BEST_SCORE", inst.best_score);
    push_opt_u32_env(&mut env, "STRIDE_DIAMETER", inst.diameter);
    push_opt_u32_env(&mut env, "STRIDE_TREEWIDTH", inst.treewidth);
    push_opt_bool_env(&mut env, "STRIDE_PLANAR", inst.planar);
    push_opt_bool_env(&mut env, "STRIDE_BIPARTITE", inst.bipartite);
    assert(env@.map_values(|p: (Vec<u8>, Vec<u8>)| (p.0@, p.1@)) =~= instance_env_spec(*inst));
    env
}

impl InstanceModel {
    /// The environment entries that describe this instance.
    pub fn to_env(&self) -> (env: Vec<(Vec<u8>, Vec<u8>)>)
        ensures
            env@.map_values(|p: (Vec<u8>, Vec<u8>)| (p.0@, p.1@)) == instance_env_spec(*self),
    {
        instance_to_env(self)
    }
}

/// The whole child environment: nothing with the no-environment option set;
/// otherwise the instance entries, the two deadlines, the run id, and the
/// solver id when one is registered.
pub open spec fn child_env_spec(
    inst: InstanceModel,
    timeout_s: u64,
    grace_s: u64,
    run_uuid: Seq<u8>,
    solver_uuid: Option<Seq<u8>>,
    no_env: bool,
) -> Seq<(Seq<u8>, Seq<u8>)> {
    if no_env {
        Seq::empty()
    } else {
        instance_env_spec(inst) + seq![
            ("STRIDE_TIMEOUT_SEC".spec_bytes(), dec_rep(timeout_s as nat)),
            ("STRIDE_GRACE_SEC".spec_bytes(), dec_rep(grace_s as nat)),
            ("STRIDE_RUN_UUID".spec_bytes(), run_uuid),
        ] + match solver_uuid {
            Some(u) => seq![("STRIDE_SOLVER_UUID".spec_bytes(), u)],
            None => Seq::empty(),
        }
    }
}

/// Builds the whole environment one solver child sees.
pub fn prepare_env_variables(
    inst: &InstanceModel,
    timeout_s: u64,
    grace_s: u64,
    run_uuid: &[u8],
    solver_uuid: Option<&[u8]>,
    no_env: bool,
) -> (env: Vec<(Vec<u8>, Vec<u8>)>)
    ensures
        env@.map_values(|p: (Vec<u8>, Vec<u8>)| (p.0@, p.1@)) == child_env_spec(
            *inst,
            timeout_s,
            grace_s,
            run_uuid@,
            match solver_uuid {
                Some(u) => Some(u@),
                None => None,
            },
            no_env,
        ),
{
    let mut env: Vec<(Vec<u8>, Vec<u8>)> = Vec::new();
    if no_env {
        assert(env@.map_values(|p: (Vec<u8>, Vec<u8>)| (p.0@, p.1@)) =~= Seq::<
            (Seq<u8>, Seq<u8>),
        >::empty());
        return env;
    }
    let mut env = instance_to_env(inst);
    let ghost base = env@.map_values(|p: (Vec<u8>, Vec<u8>)| (p.0@, p.1@));
    env.push((str_bytes("STRIDE_TIMEOUT_SEC"), u64_to_dec(timeout_s)));
    env.push((str_bytes("STRIDE_GRACE_SEC"), u64_to_dec(grace_s)));
    let mut run_id: Vec<u8> = Vec::new();
    push_bytes(&mut run_id, run_uuid);
    env.push((str_bytes("STRIDE_RUN_UUID"), run_id));
    match solver_uuid {
        Some(u) => {
            let mut solver_id: Vec<u8> = Vec::new();
            push_bytes(&mut solver_id, u);
            env.push((str_bytes("STRIDE_SOLVER_UUID"), solver_id));
            assert(env@.map_values(|p: (Vec<u8>, Vec<u8>)| (p.0@, p.1@)) =~= base + seq![
                ("STRIDE_TIMEOUT_SEC".spec_bytes(), dec_rep(timeout_s as nat)),
                ("STRIDE_GRACE_SEC".spec_bytes(), dec_rep(grace_s as nat)),
                ("STRIDE_RUN_UUID".spec_bytes(), run_uuid@),
                ("STRIDE_SOLVER_UUID".spec_bytes(), u@),
            ]);
            assert(env@.map_values(|p: (Vec<u8>, Vec<u8>)| (p.0@, p.1@)) =~= child_env_spec(
                *inst,
                timeout_s,
                grace_s,
                run_uuid@,
                Some(u@),
                no_env,
            ));
        },
        None => {
            assert(env@.map_values(|p: (Vec<u8>, Vec<u8>)| (p.0@, p.1@)) =~= base + seq![
                ("STRIDE_TIMEOUT_SEC".spec_bytes(), dec_rep(timeout_s as nat)),
                ("STRIDE_GRACE_SEC".spec_bytes(), dec_rep(grace_s as nat)),
                ("STRIDE_RUN_UUID".spec_bytes(), run_uuid@),
            ]);
            assert(env@.map_values(|p: (Vec<u8>, Vec<u8>)| (p.0@, p.1@)) =~= child_env_spec(
                *inst,
                timeout_s,
                grace_s,
                run_uuid@,
                None,
                no_env,
            ));
        },
    }
    env
}

} // verus!
