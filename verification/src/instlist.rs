//! Building the resolved instance list: the list file, the check against the
//! metadata store, intersection with a filter query, and the final order.
use vstd::prelude::*;
use vstd::multiset::Multiset;
use vstd::seq_lib::group_seq_properties;

use crate::pace::data_lines;
use crate::solution::{contains_u32, dedup, dedup_from};
use crate::text::{parse_u32, parse_u32_spec};

verus! {

broadcast use group_seq_properties;

/// Why no instance list could be built.
#[derive(Debug, PartialEq, Eq)]
pub enum InstanceListError {
    /// A significant line of the list file is not an unsigned integer.
    BadLine,
    /// Neither a list file nor a filter was given.
    NoSource,
    /// The resolved list holds no instance.
    Empty,
    /// Ids from the list file that the metadata store does not know: the
    /// smallest twenty, ascending.
    UnknownIds(Vec<u32>),
}

/// The outcome of reading an instance list file: every significant line is
/// one instance id.
pub open spec fn instance_list_result(s: Seq<u8>) -> Result<Seq<u32>, InstanceListError> {
    let dl = data_lines(s);
    if exists|i: int| 0 <= i < dl.len() && parse_u32_spec(#[trigger] dl[i]) is None {
        Err(InstanceListError::BadLine)
    } else {
        Ok(Seq::new(dl.len(), |i: int| parse_u32_spec(dl[i]).unwrap()))
    }
}

/// Reads a newline-separated list of instance ids. Whitespace is trimmed,
/// blank lines and lines starting with `c` are skipped.
pub fn read_instance_list(data: &[u8]) -> (r: Result<Vec<u32>, InstanceListError>)
    ensures
        match r {
            Ok(v) => instance_list_result(data@) == Ok::<_, InstanceListError>(v@),
            Err(e) => e == InstanceListError::BadLine && instance_list_result(data@) == Err::<
                Seq<u32>,
                _,
            >(InstanceListError::BadLine),
        },
{
    let dl = crate::pace::split_data_lines(data);
    let ghost dlv = data_lines(data@);
    assert(dl@.map_values(|l: Vec<u8>| l@) == dlv);
    let n = dl.len();
    let mut out: Vec<u32> = Vec::new();
    let mut i: usize = 0;
    while i < n
        invariant
            dlv == data_lines(data@),
            dlv == dl@.map_values(|l: Vec<u8>| l@),
            n == dl@.len(),
            0 <= i <= n,
            out@.len() == i,
            forall|j: int|
                0 <= j < i ==> parse_u32_spec(#[trigger] dlv[j]) == Some(out@[j]),
        decreases n - i,
    {
        assert(dl@.map_values(|l: Vec<u8>| l@)[i as int] == dl@[i as int]@);
        match parse_u32((&dl[i]).as_slice()) {
            Some(x) => {
                out.push(x);
            },
            None => {
                assert(parse_u32_spec(dlv[i as int]) is None);
                return Err(InstanceListError::BadLine);
            },
        }
        i += 1;
    }
    proof {
        assert(forall|j: int|
            0 <= j < dlv.len() ==> parse_u32_spec(#[trigger] dlv[j]) is Some);
        assert(out@ =~= Seq::new(dlv.len(), |j: int| parse_u32_spec(dlv[j]).unwrap()));
    }
    Ok(out)
}

/// All values of `s` in ascending order.
pub open spec fn sorted(s: Seq<u32>) -> bool {
    forall|i: int, j: int| 0 <= i < j < s.len() ==> s[i] <= s[j]
}

/// All values of `s` in strictly ascending order.
pub open spec fn strictly_sorted(s: Seq<u32>) -> bool {
    forall|i: int, j: int| 0 <= i < j < s.len() ==> s[i] < s[j]
}

/// The position of a least element of a nonempty vector.
fn min_index(v: &Vec<u32>) -> (idx: usize)
    requires
        v@.len() > 0,
    ensures
        idx < v@.len(),
        forall|j: int| 0 <= j < v@.len() ==> v@[idx as int] <= v@[j],
{
    let n = v.len();
    let mut idx: usize = 0;
    let mut i: usize = 1;
    while i < n
        invariant
            n == v@.len(),
            0 <= idx < i <= n,
            forall|j: int| 0 <= j < i ==> v@[idx as int] <= v@[j],
        decreases n - i,
    {
        if v[i] < v[idx] {
            idx = i;
        }
        i += 1;
    }
    idx
}

/// Sorts the values ascending.
pub fn sort_u32s(v: Vec<u32>) -> (r: Vec<u32>)
    ensures
        sorted(r@),
        r@.to_multiset() == v@.to_multiset(),
        r@.len() == v@.len(),
{
    let ghost orig = v@;
    let mut src = v;
    let mut out: Vec<u32> = Vec::new();
    proof {
        assert(out@.to_multiset().add(src@.to_multiset()) =~= orig.to_multiset());
    }
    while src.len() > 0
        invariant
            out@.to_multiset().add(src@.to_multiset()) == orig.to_multiset(),
            sorted(out@),
            forall|a: int, j: int|
                0 <= a < out@.len() && 0 <= j < src@.len() ==> out@[a] <= src@[j],
        decreases src@.len(),
    {
        let idx = min_index(&src);
        let x = src[idx];
        let ghost before_src = src@;
        let ghost before_out = out@;
        src.remove(idx);
        out.push(x);
        proof {
            before_src.to_multiset_ensures();
            before_out.to_multiset_ensures();
            assert(src@.to_multiset() =~= before_src.to_multiset().remove(x));
            assert(out@.to_multiset() =~= before_out.to_multiset().insert(x));
            assert(before_src.contains(x)) by {
                assert(before_src[idx as int] == x);
            }
            assert(before_src.to_multiset().count(x) > 0);
            assert(out@.to_multiset().add(src@.to_multiset()) =~= orig.to_multiset());
            assert(src@ =~= before_src.take(idx as int) + before_src.skip(idx + 1));
            assert forall|a: int, j: int|
                0 <= a < out@.len() && 0 <= j < src@.len() implies out@[a] <= src@[j] by {
                if j < idx {
                    assert(src@[j] == before_src[j]);
                } else {
                    assert(src@[j] == before_src[j + 1]);
                }
                if a < before_out.len() {
                    assert(out@[a] == before_out[a]);
                } else {
                    assert(out@[a] == x);
                }
            }
            assert forall|a: int, b: int|
                0 <= a < b < out@.len() implies out@[a] <= out@[b] by {
                if b == out@.len() - 1 {
                    assert(out@[b] == x);
                    assert(before_out[a] <= before_src[idx as int]);
                }
            }
        }
    }
    proof {
        assert(src@ =~= Seq::<u32>::empty());
        assert(src@.to_multiset() =~= Multiset::<u32>::empty());
        assert(out@.to_multiset() =~= out@.to_multiset().add(Multiset::<u32>::empty()));
        orig.to_multiset_ensures();
        out@.to_multiset_ensures();
    }
    out
}

/// Strips adjacent duplicates from a sorted vector: the same values, each
/// once, still ascending.
fn sorted_dedup(v: &Vec<u32>) -> (r: Vec<u32>)
    requires
        sorted(v@),
    ensures
        strictly_sorted(r@),
        forall|x: u32| #[trigger] r@.contains(x) <==> v@.contains(x),
{
    let n = v.len();
    let mut out: Vec<u32> = Vec::new();
    let mut i: usize = 0;
    while i < n
        invariant
            sorted(v@),
            n == v@.len(),
            0 <= i <= n,
            strictly_sorted(out@),
            forall|x: u32| #[trigger] out@.contains(x) <==> v@.take(i as int).contains(x),
            i > 0 ==> out@.len() > 0 && out@.last() == v@[i - 1],
        decreases n - i,
    {
        let ghost prefix = v@.take(i as int);
        let ghost prefix2 = v@.take(i + 1);
        assert(prefix2 =~= prefix.push(v@[i as int]));
        let x = v[i];
        let push_it: bool = if i == 0 {
            true
        } else {
            let last = out[out.len() - 1];
            assert(last == v@[i - 1]);
            last != x
        };
        if push_it {
            let ghost before = out@;
            out.push(x);
            proof {
                assert forall|y: u32| #[trigger] out@.contains(y) implies prefix2.contains(
                    y,
                ) by {
                    let w = choose|w: int| 0 <= w < out@.len() && out@[w] == y;
                    if w < before.len() {
                        assert(before[w] == y);
                        assert(before.contains(y));
                        assert(prefix.contains(y));
                        let w2 = choose|w2: int| 0 <= w2 < prefix.len() && prefix[w2] == y;
                        assert(prefix2[w2] == y);
                    } else {
                        assert(prefix2[i as int] == y);
                    }
                }
                assert forall|y: u32| prefix2.contains(y) implies #[trigger] out@.contains(
                    y,
                ) by {
                    let w = choose|w: int| 0 <= w < prefix2.len() && prefix2[w] == y;
                    if w < i {
                        assert(prefix[w] == y);
                        assert(prefix.contains(y));
                        assert(before.contains(y));
                        let w2 = choose|w2: int| 0 <= w2 < before.len() && before[w2] == y;
                        assert(out@[w2] == y);
                    } else {
                        assert(out@[out@.len() - 1] == y);
                    }
                }
                assert forall|a: int, b: int| 0 <= a < b < out@.len() implies out@[a]
                    < out@[b] by {
                    if b == out@.len() - 1 {
                        assert(out@[b] == x);
                        assert(out@[a] == before[a]);
                        assert(before.len() >= 1);
                        if i == 0 {
                            assert(before.contains(before[0]));
                            assert(v@.take(0int).contains(before[0]));
                            assert(false);
                        }
                        assert(before.last() == v@[i - 1]);
                        assert(v@[i - 1] != x);
                        assert(v@[i - 1] <= v@[i as int]);
                        if a < before.len() - 1 {
                            assert(before[a] < before[before.len() - 1]);
                        }
                    } else {
                        assert(out@[a] == before[a] && out@[b] == before[b]);
                    }
                }
            }
        } else {
            proof {
                assert(v@[i - 1] == x);
                assert(out@.contains(x)) by {
                    assert(out@[out@.len() - 1] == x);
                }
                assert forall|y: u32| #[trigger] out@.contains(y) <==> prefix2.contains(
                    y,
                ) by {
                    if prefix2.contains(y) {
                        let w = choose|w: int| 0 <= w < prefix2.len() && prefix2[w] == y;
                        if w < i {
                            assert(prefix[w] == y);
                        } else {
                            assert(y == x);
                        }
                    }
                    if out@.contains(y) {
                        assert(prefix.contains(y));
                        let w2 = choose|w2: int| 0 <= w2 < prefix.len() && prefix[w2] == y;
                        assert(prefix2[w2] == y);
                    }
                }
            }
        }
        i += 1;
    }
    assert(v@.take(n as int) =~= v@);
    out
}

/// Checks that every id of `proposed` is known to the metadata store, whose
/// ids are `known`. On failure, reports the smallest twenty unknown ids,
/// ascending.
pub fn check_instances_known(proposed: &Vec<u32>, known: &Vec<u32>) -> (r: Result<
    (),
    InstanceListError,
>)
    ensures
        match r {
            Ok(()) => forall|i: int|
                0 <= i < proposed@.len() ==> known@.contains(#[trigger] proposed@[i]),
            Err(e) => {
                &&& e matches InstanceListError::UnknownIds(d)
                &&& strictly_sorted(d@)
                &&& d@.len() >= 1
                &&& d@.len() <= 20
                &&& forall|i: int|
                    0 <= i < d@.len() ==> proposed@.contains(#[trigger] d@[i]) && !known@.contains(
                        d@[i],
                    )
                &&& forall|x: u32|
                    proposed@.contains(x) && !known@.contains(x) ==> #[trigger] d@.contains(x)
                        || (d@.len() == 20 && x > d@[19])
            },
        },
{
    let n = proposed.len();
    let mut missing: Vec<u32> = Vec::new();
    let mut i: usize = 0;
    while i < n
        invariant
            n == proposed@.len(),
            0 <= i <= n,
            forall|k: int|
                0 <= k < missing@.len() ==> proposed@.contains(#[trigger] missing@[k])
                    && !known@.contains(missing@[k]),
            forall|j: int|
                0 <= j < i && !known@.contains(#[trigger] proposed@[j]) ==> missing@.contains(
                    proposed@[j],
                ),
        decreases n - i,
    {
        let x = proposed[i];
        if !contains_u32(known, x) {
            let ghost before = missing@;
            missing.push(x);
            proof {
                assert(proposed@.contains(x)) by {
                    assert(proposed@[i as int] == x);
                }
                assert forall|j: int|
                    0 <= j < i + 1 && !known@.contains(#[trigger] proposed@[j])
                        implies missing@.contains(proposed@[j]) by {
                    if j < i {
                        assert(before.contains(proposed@[j]));
                        let w = choose|w: int|
                            0 <= w < before.len() && before[w] == proposed@[j];
                        assert(missing@[w] == proposed@[j]);
                    } else {
                        assert(missing@[missing@.len() - 1] == proposed@[j]);
                    }
                }
            }
        }
        i += 1;
    }
    if missing.len() == 0 {
        proof {
            assert forall|j: int| 0 <= j < proposed@.len() implies known@.contains(
                #[trigger] proposed@[j],
            ) by {
                if !known@.contains(proposed@[j]) {
                    assert(missing@.contains(proposed@[j]));
                }
            }
        }
        return Ok(());
    }
    let ghost missing_v = missing@;
    let sorted_missing = sort_u32s(missing);
    proof {
        missing_v.to_multiset_ensures();
        sorted_missing@.to_multiset_ensures();
        assert forall|x: u32| #[trigger] sorted_missing@.contains(x) <==> missing_v.contains(
            x,
        ) by {
            assert(sorted_missing@.contains(x) <==> sorted_missing@.to_multiset().count(x) > 0);
            assert(missing_v.contains(x) <==> missing_v.to_multiset().count(x) > 0);
        }
    }
    let mut distinct = sorted_dedup(&sorted_missing);
    let ghost full = distinct@;
    if distinct.len() > 20 {
        distinct.truncate(20);
        assert(distinct@ =~= full.take(20));
    }
    proof {
        assert(full.len() > 0) by {
            assert(missing_v[0] == missing_v.first());
            assert(missing_v.contains(missing_v[0]));
            assert(full.contains(missing_v[0]));
        }
        assert forall|x: u32| proposed@.contains(x) && !known@.contains(x) implies #[trigger]
        distinct@.contains(x) || (distinct@.len() == 20 && x > distinct@[19]) by {
            let w = choose|w: int| 0 <= w < proposed@.len() && proposed@[w] == x;
            assert(missing_v.contains(proposed@[w]));
            assert(full.contains(x));
            let wf = choose|wf: int| 0 <= wf < full.len() && full[wf] == x;
            if full.len() > 20 {
                if wf < 20 {
                    assert(distinct@[wf] == x);
                } else {
                    assert(full[19] < full[wf]);
                    assert(distinct@[19] == full[19]);
                }
            } else {
                assert(distinct@[wf] == x);
            }
        }
        assert forall|i2: int| 0 <= i2 < distinct@.len() implies proposed@.contains(
            #[trigger] distinct@[i2],
        ) && !known@.contains(distinct@[i2]) by {
            assert(full.contains(distinct@[i2])) by {
                if full.len() > 20 {
                    assert(distinct@[i2] == full[i2]);
                } else {
                }
            }
            assert(sorted_missing@.contains(distinct@[i2]));
            assert(missing_v.contains(distinct@[i2]));
            let w = choose|w: int| 0 <= w < missing_v.len() && missing_v[w] == distinct@[i2];
        }
    }
    Err(InstanceListError::UnknownIds(distinct))
}

/// The values of `s` that `db` knows, in order.
pub open spec fn keep_in(s: Seq<u32>, db: Seq<u32>) -> Seq<u32>
    decreases s.len(),
{
    if s.len() == 0 {
        Seq::empty()
    } else if db.contains(s[0]) {
        seq![s[0]] + keep_in(s.drop_first(), db)
    } else {
        keep_in(s.drop_first(), db)
    }
}

proof fn lemma_keep_in_push(s: Seq<u32>, db: Seq<u32>, x: u32)
    ensures
        keep_in(s.push(x), db) == if db.contains(x) {
            keep_in(s, db).push(x)
        } else {
            keep_in(s, db)
        },
    decreases s.len(),
{
    if s.len() == 0 {
        assert(s.push(x).drop_first() =~= Seq::<u32>::empty());
        if db.contains(x) {
            assert(keep_in(s.push(x), db) =~= keep_in(s, db).push(x));
        }
    } else {
        assert(s.push(x).drop_first() =~= s.drop_first().push(x));
        lemma_keep_in_push(s.drop_first(), db, x);
        if db.contains(x) {
            if db.contains(s[0]) {
                assert(keep_in(s.push(x), db) =~= seq![s[0]] + keep_in(s.drop_first(), db).push(
                    x,
                ));
                assert(seq![s[0]] + keep_in(s.drop_first(), db).push(x) =~= (seq![s[0]]
                    + keep_in(s.drop_first(), db)).push(x));
            }
        }
    }
}

/// The values `keep_in` keeps are exactly those of both lists.
pub proof fn lemma_keep_in_contains(s: Seq<u32>, db: Seq<u32>)
    ensures
        forall|x: u32| #[trigger] keep_in(s, db).contains(x) <==> s.contains(x) && db.contains(x),
    decreases s.len(),
{
    if s.len() > 0 {
        lemma_keep_in_contains(s.drop_first(), db);
        let k = keep_in(s, db);
        assert forall|x: u32| #[trigger] k.contains(x) implies s.contains(x) && db.contains(
            x,
        ) by {
            let w = choose|w: int| 0 <= w < k.len() && k[w] == x;
            if db.contains(s[0]) && w == 0 {
                assert(s[0] == x);
            } else {
                let rest = keep_in(s.drop_first(), db);
                if db.contains(s[0]) {
                    assert(rest[w - 1] == x);
                } else {
                    assert(rest[w] == x);
                }
                assert(rest.contains(x));
                assert(s.drop_first().contains(x));
                let w2 = choose|w2: int| 0 <= w2 < s.drop_first().len() && s.drop_first()[w2] == x;
                assert(s[w2 + 1] == x);
            }
        }
        assert forall|x: u32| s.contains(x) && db.contains(x) implies #[trigger] k.contains(
            x,
        ) by {
            if x == s[0] {
                assert(k[0] == x);
            } else {
                let w = choose|w: int| 0 <= w < s.len() && s[w] == x;
                assert(s.drop_first()[w - 1] == x);
                let rest = keep_in(s.drop_first(), db);
                assert(rest.contains(x));
                let w3 = choose|w3: int| 0 <= w3 < rest.len() && rest[w3] == x;
                if db.contains(s[0]) {
                    assert(k[w3 + 1] == x);
                } else {
                    assert(k[w3] == x);
                }
            }
        }
    }
}

/// Intersects the file-sourced list with the filter-sourced list: the
/// distinct ids of the file, in first-occurrence order, that the filter also
/// produced.
pub fn intersect_lists(file: &Vec<u32>, db: &Vec<u32>) -> (r: Vec<u32>)
    ensures
        r@ == keep_in(dedup(file@), db@),
        forall|x: u32| #[trigger] r@.contains(x) <==> file@.contains(x) && db@.contains(x),
{
    let n = file.len();
    let mut seen: Vec<u32> = Vec::new();
    let mut out: Vec<u32> = Vec::new();
    let mut i: usize = 0;
    proof {
        assert(file@.skip(0) =~= file@);
        assert(seen@ =~= Seq::<u32>::empty());
        assert(Seq::<u32>::empty() + dedup_from(file@, Seq::empty()) =~= dedup(file@));
    }
    while i < n
        invariant
            n == file@.len(),
            0 <= i <= n,
            dedup(file@) == seen@ + dedup_from(file@.skip(i as int), seen@),
            out@ == keep_in(seen@, db@),
        decreases n - i,
    {
        assert(file@.skip(i as int).drop_first() =~= file@.skip(i + 1));
        let ghost rest = file@.skip(i as int);
        let ghost prev_seen = seen@;
        let x = file[i];
        assert(rest[0] == x);
        if !contains_u32(&seen, x) {
            seen.push(x);
            proof {
                assert(dedup_from(rest, prev_seen) == seq![x] + dedup_from(
                    file@.skip(i + 1),
                    prev_seen.push(x),
                ));
                assert(seen@ =~= prev_seen + seq![x]);
                assert(prev_seen + (seq![x] + dedup_from(file@.skip(i + 1), prev_seen.push(x)))
                    =~= (prev_seen + seq![x]) + dedup_from(file@.skip(i + 1), seen@));
                lemma_keep_in_push(prev_seen, db@, x);
                assert(seen@ == prev_seen.push(x));
            }
            if contains_u32(db, x) {
                out.push(x);
            }
        } else {
            assert(dedup_from(rest, prev_seen) == dedup_from(file@.skip(i + 1), prev_seen));
        }
        i += 1;
    }
    proof {
        assert(file@.skip(n as int) =~= Seq::<u32>::empty());
        assert(dedup(file@) =~= seen@);
        lemma_keep_in_contains(dedup(file@), db@);
        crate::solution::lemma_dedup_props(file@);
    }
    out
}

/// Combines the two possible sources of the instance list: the list file,
/// the metadata filter, or, when both were given, their intersection. With
/// neither, there is nothing to run.
pub fn resolve_instance_list(from_file: Option<Vec<u32>>, from_db: Option<Vec<u32>>) -> (r: Result<
    Vec<u32>,
    InstanceListError,
>)
    ensures
        match r {
            Ok(v) => match (from_file, from_db) {
                (Some(f), Some(d)) => v@ == keep_in(dedup(f@), d@),
                (Some(f), None) => v@ == f@,
                (None, Some(d)) => v@ == d@,
                (None, None) => false,
            },
            Err(e) => e == InstanceListError::NoSource && from_file is None && from_db is None,
        },
{
    match (from_file, from_db) {
        (Some(f), Some(d)) => Ok(intersect_lists(&f, &d)),
        (Some(f), None) => Ok(f),
        (None, Some(d)) => Ok(d),
        (None, None) => Err(InstanceListError::NoSource),
    }
}

/// Relies on `rand::seq::SliceRandom::shuffle`: permutes the list in place,
/// with a freshly seeded generator; the values are kept, only their order
/// changes.
#[verifier::external_body]
fn shuffle_u32s(v: &mut Vec<u32>)
    ensures
        final(v)@.to_multiset() == old(v)@.to_multiset(),
        final(v)@.len() == old(v)@.len(),
{
    rand::seq::SliceRandom::shuffle(v.as_mut_slice(), &mut rand::rng());
}

/// Orders the resolved list for the run: ascending when asked, otherwise
/// shuffled; an empty list stops the run before it starts.
pub fn finalize_instance_list(v: Vec<u32>, sort_instances: bool) -> (r: Result<
    Vec<u32>,
    InstanceListError,
>)
    ensures
        match r {
            Ok(w) => {
                &&& v@.len() > 0
                &&& w@.to_multiset() == v@.to_multiset()
                &&& w@.len() == v@.len()
                &&& sort_instances ==> sorted(w@)
            },
            Err(e) => e == InstanceListError::Empty && v@.len() == 0,
        },
{
    if v.len() == 0 {
        return Err(InstanceListError::Empty);
    }
    if sort_instances {
        Ok(sort_u32s(v))
    } else {
        let mut w = v;
        shuffle_u32s(&mut w);
        Ok(w)
    }
}

} // verus!
