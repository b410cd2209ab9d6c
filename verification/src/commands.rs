//! The decisions behind the one-shot commands: registering a solver,
//! updating the local databases, and exporting an instance.
use vstd::prelude::*;

use crate::text::{push_bytes, str_bytes, u32_to_dec, dec_rep};
use vstd::string::StringSliceAdditionalSpecFns;

verus! {

/// What `register` does about an existing solver identity.
#[derive(PartialEq, Eq, Structural, Debug, Clone, Copy)]
pub enum RegisterAction {
    /// An identity exists and deleting it was not confirmed: refuse.
    Refuse,
    /// An identity exists and replacing was confirmed: back the old one up,
    /// then write a fresh one.
    BackupAndReplace,
    /// No identity exists: write a fresh one.
    Fresh,
}

/// Decides what `register` does: replacing an existing identity takes an
/// explicit confirmation, and the replaced value is backed up first.
pub fn register_decision(has_existing_uuid: bool, delete_old_uuid: bool) -> (r: RegisterAction)
    ensures
        r == if has_existing_uuid {
            if delete_old_uuid {
                RegisterAction::BackupAndReplace
            } else {
                RegisterAction::Refuse
            }
        } else {
            RegisterAction::Fresh
        },
{
    if has_existing_uuid {
        if delete_old_uuid {
            RegisterAction::BackupAndReplace
        } else {
            RegisterAction::Refuse
        }
    } else {
        RegisterAction::Fresh
    }
}

/// One line of the identity backup log: the timestamp, then the replaced
/// value.
pub open spec fn backup_line_spec(timestamp: Seq<u8>, uuid: Seq<u8>) -> Seq<u8> {
    timestamp + " Reregister. The old UUID was ".spec_bytes() + uuid + seq!['\n' as u8]
}

/// Writes one line of the identity backup log.
pub fn backup_line(timestamp: &[u8], uuid: &[u8]) -> (v: Vec<u8>)
    ensures
        v@ == backup_line_spec(timestamp@, uuid@),
{
    let mut v: Vec<u8> = Vec::new();
    push_bytes(&mut v, timestamp);
    let mid = str_bytes(" Reregister. The old UUID was ");
    push_bytes(&mut v, mid.as_slice());
    push_bytes(&mut v, uuid);
    v.push(10);
    assert(v@ =~= backup_line_spec(timestamp@, uuid@));
    v
}

/// What `update` downloads and how it installs the instance bodies.
#[derive(PartialEq, Eq, Structural, Debug, Clone, Copy)]
pub struct UpdatePlan {
    /// The metadata database is always refreshed.
    pub fetch_metadata: bool,
    /// Whether the instance-body database is fetched at all.
    pub fetch_instances: bool,
    /// Whether the full corpus is fetched rather than the partial one.
    pub full_corpus: bool,
    /// Whether the download replaces the local file outright; otherwise it
    /// goes to a temporary file and is merged in.
    pub direct: bool,
}

/// Decides what `update` does: metadata always; instance bodies unless only
/// metadata was asked for, or when the local file is missing entirely; the
/// full corpus only on request; in place when replacing or when nothing is
/// there yet, else downloaded aside and merged.
pub fn update_plan(
    all_instances: bool,
    only_metadata: bool,
    replace_all: bool,
    target_exists: bool,
) -> (r: UpdatePlan)
    ensures
        r.fetch_metadata,
        r.fetch_instances == (!only_metadata || !target_exists),
        r.full_corpus == all_instances,
        r.direct == (replace_all || !target_exists),
{
    UpdatePlan {
        fetch_metadata: true,
        fetch_instances: !only_metadata || !target_exists,
        full_corpus: all_instances,
        direct: replace_all || !target_exists,
    }
}

/// Where `export-instance` writes: nowhere (standard output) without a
/// path; under `<iid>.gr` when the path is the bare root; else at the path
/// itself.
pub open spec fn export_destination_spec(output: Option<Seq<u8>>, iid: u32) -> Option<Seq<u8>> {
    match output {
        None => None,
        Some(p) => if p == seq!['/' as u8] {
            Some(dec_rep(iid as nat) + ".gr".spec_bytes())
        } else {
            Some(p)
        },
    }
}

/// Picks the destination of an exported instance body.
pub fn export_destination(output: Option<&[u8]>, iid: u32) -> (r: Option<Vec<u8>>)
    ensures
        match r {
            Some(v) => export_destination_spec(
                match output {
                    Some(p) => Some(p@),
                    None => None,
                },
                iid,
            ) == Some(v@),
            None => output is None,
        },
{
    match output {
        Some(p) => {
            if p.len() == 1 && p[0] == 47 {
                assert(p@ =~= seq!['/' as u8]);
                let mut v = u32_to_dec(iid);
                let ext = str_bytes(".gr");
                push_bytes(&mut v, ext.as_slice());
                Some(v)
            } else {
                assert(p@ != seq!['/' as u8]) by {
                    if p@.len() == 1 && p@[0] == '/' as u8 {
                        assert(p@ =~= seq!['/' as u8]);
                    }
                }
                let mut v: Vec<u8> = Vec::new();
                push_bytes(&mut v, p);
                Some(v)
            }
        },
        None => None,
    }
}

/// Whether writing the export is refused: the file exists and overwriting
/// was not forced.
pub fn export_blocked(force: bool, exists: bool) -> (r: bool)
    ensures
        r == (!force && exists),
{
    !force && exists
}

} // verus!
