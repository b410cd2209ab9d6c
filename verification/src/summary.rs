//! The append-only run summary: one CSV row per finished job.
use vstd::prelude::*;

use crate::ids::IId;
use crate::job::{JobResult, JobResultState};
use crate::text::{dec_rep, push_bytes, str_bytes, u32_to_dec, u64_to_dec};
use vstd::string::StringSliceAdditionalSpecFns;

verus! {

/// The CSV name of a result state.
pub open spec fn state_name_spec(s: JobResultState) -> Seq<u8> {
    match s {
        JobResultState::BestKnown { .. } => "best".spec_bytes(),
        JobResultState::Suboptimal { .. } => "suboptimal".spec_bytes(),
        JobResultState::Infeasible => "infeasible".spec_bytes(),
        JobResultState::Incomplete => "incomplete".spec_bytes(),
        JobResultState::Error => "error".spec_bytes(),
        JobResultState::Timeout => "timeout".spec_bytes(),
    }
}

/// Writes the CSV name of a result state.
pub fn state_name(s: JobResultState) -> (v: Vec<u8>)
    ensures
        v@ == state_name_spec(s),
{
    match s {
        JobResultState::BestKnown { .. } => str_bytes("best"),
        JobResultState::Suboptimal { .. } => str_bytes("suboptimal"),
        JobResultState::Infeasible => str_bytes("infeasible"),
        JobResultState::Incomplete => str_bytes("incomplete"),
        JobResultState::Error => str_bytes("error"),
        JobResultState::Timeout => str_bytes("timeout"),
    }
}

/// The input without trailing zero digits.
pub open spec fn trim_zeros(s: Seq<u8>) -> Seq<u8>
    decreases s.len(),
{
    if s.len() > 0 && s.last() == '0' as u8 {
        trim_zeros(s.drop_last())
    } else {
        s
    }
}

/// A duration in milliseconds written as seconds: the whole seconds, then,
/// when the milliseconds do not vanish, a point and the fraction without
/// trailing zeros.
pub open spec fn time_rep(ms: nat) -> Seq<u8> {
    if ms % 1000 == 0 {
        dec_rep(ms / 1000)
    } else {
        dec_rep(ms / 1000) + seq!['.' as u8] + trim_zeros(dec_rep(1000 + ms % 1000).drop_first())
    }
}

/// Writes a duration in milliseconds as seconds.
pub fn format_time_sec(ms: u64) -> (v: Vec<u8>)
    ensures
        v@ == time_rep(ms as nat),
{
    let mut out = u64_to_dec(ms / 1000);
    let f = ms % 1000;
    if f != 0 {
        out.push(46);
        let ghost whole = out@;
        let padded = u64_to_dec(1000 + f);
        let mut fr: Vec<u8> = Vec::new();
        let mut i: usize = 1;
        assert(padded@ == dec_rep((1000 + f) as nat));
        assert(padded@.len() == 4) by {
            assert(1000 <= 1000 + f < 10000);
            assert(dec_rep((1000 + f) as nat) == dec_rep(((1000 + f) as nat) / 10).push(
                ((('0' as u8) + ((1000 + f) as nat) % 10)) as u8,
            ));
            assert(dec_rep(((1000 + f) as nat) / 10) == dec_rep(
                (((1000 + f) as nat) / 10) / 10,
            ).push(((('0' as u8) + (((1000 + f) as nat) / 10) % 10)) as u8));
            assert(dec_rep((((1000 + f) as nat) / 10) / 10) == dec_rep(
                ((((1000 + f) as nat) / 10) / 10) / 10,
            ).push(((('0' as u8) + ((((1000 + f) as nat) / 10) / 10) % 10)) as u8));
            assert(((((1000 + f) as nat) / 10) / 10) / 10 < 10);
        }
        while i < 4
            invariant
                1 <= i <= 4,
                padded@.len() == 4,
                fr@ == padded@.subrange(1, i as int),
            decreases 4 - i,
        {
            fr.push(padded[i]);
            assert(padded@.subrange(1, i + 1) =~= padded@.subrange(1, i as int).push(
                padded@[i as int],
            ));
            i += 1;
        }
        assert(fr@ == padded@.drop_first()) by {
            assert(padded@.subrange(1, 4) =~= padded@.drop_first());
        }
        while fr.len() > 0 && fr[fr.len() - 1] == 48
            invariant
                trim_zeros(padded@.drop_first()) == trim_zeros(fr@),
            decreases fr.len(),
        {
            let ghost prev = fr@;
            fr.pop();
            assert(fr@ =~= prev.drop_last());
        }
        assert(trim_zeros(fr@) == fr@);
        push_bytes(&mut out, fr.as_slice());
        assert(out@ =~= time_rep(ms as nat)) by {
            assert(whole =~= dec_rep((ms as nat) / 1000) + seq!['.' as u8]);
        }
    }
    out
}

/// The score column: the solution's cardinality for feasible outcomes, empty
/// otherwise.
pub open spec fn score_field_spec(s: JobResultState) -> Seq<u8> {
    match s {
        JobResultState::BestKnown { score } => dec_rep(score as nat),
        JobResultState::Suboptimal { score, .. } => dec_rep(score as nat),
        _ => Seq::empty(),
    }
}

/// The best-known column: the score a best-known result matched, the best
/// known score a suboptimal result missed, empty otherwise.
pub open spec fn best_field_spec(s: JobResultState) -> Seq<u8> {
    match s {
        JobResultState::BestKnown { score } => dec_rep(score as nat),
        JobResultState::Suboptimal { best_known, .. } => dec_rep(best_known as nat),
        _ => Seq::empty(),
    }
}

/// The header row of the summary file.
pub fn summary_header() -> (v: Vec<u8>)
    ensures
        v@ == "iid,time_sec,state,score,best_score_known\n".spec_bytes(),
{
    str_bytes("iid,time_sec,state,score,best_score_known\n")
}

/// One summary row: instance id, runtime in seconds, state name, score and
/// best known score where meaningful, ended by a line feed.
pub open spec fn summary_line_spec(iid: u32, state: JobResultState, runtime_ms: nat) -> Seq<u8> {
    dec_rep(iid as nat) + seq![',' as u8] + time_rep(runtime_ms) + seq![',' as u8]
        + state_name_spec(state) + seq![',' as u8] + score_field_spec(state) + seq![',' as u8]
        + best_field_spec(state) + seq!['\n' as u8]
}

/// Writes the summary row of one finished job.
pub fn summary_line(iid: IId, result: &JobResult) -> (v: Vec<u8>)
    ensures
        v@ == summary_line_spec(iid.0, result.state, result.runtime_ms as nat),
{
    let mut out = u32_to_dec(iid.0);
    out.push(44);
    let time = format_time_sec(result.runtime_ms);
    push_bytes(&mut out, time.as_slice());
    out.push(44);
    let name = state_name(result.state);
    push_bytes(&mut out, name.as_slice());
    out.push(44);
    match result.state {
        JobResultState::BestKnown { score } => {
            let d = u32_to_dec(score);
            push_bytes(&mut out, d.as_slice());
            out.push(44);
            let d2 = u32_to_dec(score);
            push_bytes(&mut out, d2.as_slice());
        },
        JobResultState::Suboptimal { score, best_known } => {
            let d = u32_to_dec(score);
            push_bytes(&mut out, d.as_slice());
            out.push(44);
            let d2 = u32_to_dec(best_known);
            push_bytes(&mut out, d2.as_slice());
        },
        _ => {
            out.push(44);
        },
    }
    out.push(10);
    assert(out@ =~= summary_line_spec(iid.0, result.state, result.runtime_ms as nat));
    out
}

} // verus!
