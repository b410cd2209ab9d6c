//! Solver output: parsing of a claimed dominating set and the feasibility
//! decision against a graph.
use vstd::prelude::*;

use crate::pace::{data_lines, edge_wf, graph_parse_result, Graph, GraphParseError};
use crate::text::{
    all_digits, dec_rep, is_digit, is_ws, lemma_dec_rep_digits, lemma_dec_rep_val,
    lemma_lines_chunk, lemma_tokens_single, lemma_trim_no_ws, lines_spec, nl, parse_u32,
    parse_u32_spec, push_bytes, split_tokens, tokens_spec, u32_to_dec,
};

verus! {

/// Membership of `x` in the vector.
pub fn contains_u32(v: &Vec<u32>, x: u32) -> (r: bool)
    ensures
        r == v@.contains(x),
{
    let n = v.len();
    let mut i: usize = 0;
    while i < n
        invariant
            n == v@.len(),
            0 <= i <= n,
            forall|j: int| 0 <= j < i ==> v@[j] != x,
        decreases n - i,
    {
        if v[i] == x {
            return true;
        }
        i += 1;
    }
    false
}

/// Node `v` is covered by the set `sol`: it is a member, or joined by an edge
/// to a member.
pub open spec fn covered(edges: Seq<(u32, u32)>, sol: Seq<u32>, v: u32) -> bool {
    sol.contains(v) || exists|i: int|
        0 <= i < edges.len() && ((#[trigger] edges[i]).0 == v && sol.contains(edges[i].1) || (
        edges[i]).1 == v && sol.contains(edges[i].0))
}

/// The set `sol` dominates the graph: every node in `[1, n]` is covered.
pub open spec fn dominates(n: u32, edges: Seq<(u32, u32)>, sol: Seq<u32>) -> bool {
    forall|v: u32| 1 <= v <= n ==> #[trigger] covered(edges, sol, v)
}

/// Whether node `v` is covered by `sol` in the given edge list.
fn covered_exec(edges: &Vec<(u32, u32)>, sol: &Vec<u32>, v: u32) -> (r: bool)
    ensures
        r == covered(edges@, sol@, v),
{
    if contains_u32(sol, v) {
        return true;
    }
    let m = edges.len();
    let mut i: usize = 0;
    while i < m
        invariant
            m == edges@.len(),
            0 <= i <= m,
            !sol@.contains(v),
            forall|j: int|
                0 <= j < i ==> !((#[trigger] edges@[j]).0 == v && sol@.contains(edges@[j].1) || (
                edges@[j]).1 == v && sol@.contains(edges@[j].0)),
        decreases m - i,
    {
        let (a, b) = edges[i];
        if a == v && contains_u32(sol, b) {
            return true;
        }
        if b == v && contains_u32(sol, a) {
            return true;
        }
        i += 1;
    }
    false
}

/// Like `covered`, over the first `j` edges only.
spec fn covered_upto(edges: Seq<(u32, u32)>, sol: Seq<u32>, v: u32, j: int) -> bool {
    sol.contains(v) || exists|i: int|
        0 <= i < j && i < edges.len() && ((#[trigger] edges[i]).0 == v && sol.contains(
            edges[i].1,
        ) || (edges[i]).1 == v && sol.contains(edges[i].0))
}

proof fn lemma_take_contains(s: Seq<u32>, i: int, x: u32)
    requires
        0 <= i < s.len(),
    ensures
        s.take(i + 1).contains(x) <==> s.take(i).contains(x) || s[i] == x,
{
    if s.take(i).contains(x) {
        let w = choose|w: int| 0 <= w < s.take(i).len() && s.take(i)[w] == x;
        assert(s.take(i + 1)[w] == x);
    }
    if s[i] == x {
        assert(s.take(i + 1)[i] == x);
    }
    if s.take(i + 1).contains(x) {
        let w = choose|w: int| 0 <= w < s.take(i + 1).len() && #[trigger] s.take(i + 1)[w] == x;
        if w < i {
            assert(s.take(i)[w] == x);
        }
    }
}

/// The single sweep: mark the members, spread each mark across its edges,
/// then look for an unmarked node.
fn check_dominating_sweep(g: &Graph, sol: &Vec<u32>) -> (r: bool)
    requires
        g.wf(),
        g.n + 1 <= usize::MAX,
    ensures
        r == dominates(g.n, g.edges@, sol@),
{
    let n = g.n;
    let rows: usize = (n as usize) + 1;
    let mut in_set: Vec<bool> = Vec::new();
    while in_set.len() < rows
        invariant
            in_set@.len() <= rows,
            forall|w: int| 0 <= w < in_set@.len() ==> !(#[trigger] in_set@[w]),
        decreases rows - in_set@.len(),
    {
        in_set.push(false);
    }
    let k = sol.len();
    let mut i: usize = 0;
    proof {
        assert(sol@.take(0) =~= Seq::<u32>::empty());
    }
    while i < k
        invariant
            n == g.n,
            k == sol@.len(),
            0 <= i <= k,
            in_set@.len() == n + 1,
            forall|w: u32|
                1 <= w <= n ==> #[trigger] in_set@[w as int] == sol@.take(i as int).contains(w),
        decreases k - i,
    {
        let x = sol[i];
        if 1 <= x && x <= n {
            in_set[x as usize] = true;
        }
        proof {
            assert forall|w: u32| 1 <= w <= n implies #[trigger] in_set@[w as int] == sol@.take(
                i + 1,
            ).contains(w) by {
                lemma_take_contains(sol@, i as int, w);
            }
        }
        i += 1;
    }
    proof {
        assert(sol@.take(k as int) =~= sol@);
    }
    let mut marked = in_set.clone();
    assert(marked@ =~= in_set@);
    let m = g.edges.len();
    let mut j: usize = 0;
    proof {
        assert forall|w: u32| 1 <= w <= n implies #[trigger] marked@[w as int] == covered_upto(
            g.edges@,
            sol@,
            w,
            0,
        ) by {}
    }
    while j < m
        invariant
            g.wf(),
            n == g.n,
            m == g.edges@.len(),
            0 <= j <= m,
            in_set@.len() == n + 1,
            marked@.len() == n + 1,
            forall|w: u32| 1 <= w <= n ==> #[trigger] in_set@[w as int] == sol@.contains(w),
            forall|w: u32|
                1 <= w <= n ==> #[trigger] marked@[w as int] == covered_upto(
                    g.edges@,
                    sol@,
                    w,
                    j as int,
                ),
        decreases m - j,
    {
        let ghost before = marked@;
        let (a, b) = g.edges[j];
        proof {
            assert(edge_wf(g.n, g.edges@[j as int]));
        }
        if in_set[a as usize] {
            marked[b as usize] = true;
        }
        if in_set[b as usize] {
            marked[a as usize] = true;
        }
        proof {
            assert forall|w: u32| 1 <= w <= n implies #[trigger] marked@[w as int]
                == covered_upto(g.edges@, sol@, w, j + 1) by {
                if w != a && w != b {
                    assert(marked@[w as int] == before[w as int]);
                }
            }
        }
        j += 1;
    }
    let mut v: u64 = 1;
    while v <= n as u64
        invariant
            n == g.n,
            m == g.edges@.len(),
            1 <= v <= n as u64 + 1,
            marked@.len() == n + 1,
            forall|w: u32|
                1 <= w <= n ==> #[trigger] marked@[w as int] == covered_upto(
                    g.edges@,
                    sol@,
                    w,
                    m as int,
                ),
            forall|w: u32| 1 <= w < v ==> #[trigger] covered(g.edges@, sol@, w),
        decreases n as u64 - v + 1,
    {
        if !marked[v as usize] {
            assert(!dominates(g.n, g.edges@, sol@)) by {
                assert(v <= u32::MAX as u64);
                assert(!covered_upto(g.edges@, sol@, v as u32, m as int));
                assert(!covered(g.edges@, sol@, v as u32));
            }
            return false;
        }
        assert(covered(g.edges@, sol@, v as u32)) by {
            assert(covered_upto(g.edges@, sol@, v as u32, m as int));
        }
        v += 1;
    }
    assert forall|w: u32| 1 <= w <= g.n implies #[trigger] covered(g.edges@, sol@, w) by {
        assert(w < v);
    }
    true
}

/// Decides whether `sol` is a dominating set of the graph, in one sweep
/// over the members and the edges where the node count allows the marks,
/// and by a plain scan of the nodes where it does not.
pub fn check_dominating(g: &Graph, sol: &Vec<u32>) -> (r: bool)
    requires
        g.wf(),
    ensures
        r == dominates(g.n, g.edges@, sol@),
{
    if (g.n as u64) < (usize::MAX as u64) {
        return check_dominating_sweep(g, sol);
    }
    let n = g.n;
    let mut v: u64 = 1;
    while v <= n as u64
        invariant
            n == g.n,
            1 <= v <= n as u64 + 1,
            forall|w: u32| 1 <= w < v ==> #[trigger] covered(g.edges@, sol@, w),
        decreases n as u64 - v + 1,
    {
        if !covered_exec(&g.edges, sol, v as u32) {
            assert(!dominates(g.n, g.edges@, sol@)) by {
                assert(v <= u32::MAX as u64);
                assert(v as u32 == v);
                assert(1 <= (v as u32) <= g.n && !covered(g.edges@, sol@, v as u32));
            }
            return false;
        }
        v += 1;
    }
    assert forall|w: u32| 1 <= w <= g.n implies #[trigger] covered(g.edges@, sol@, w) by {
        assert(w < v);
    }
    true
}

/// Why a solver's output was rejected.
#[derive(Clone, Copy, PartialEq, Eq, Structural, Debug)]
pub enum SolutionParseError {
    /// Fewer data lines than the claimed cardinality, or no output at all.
    Incomplete,
    /// A malformed count line, a malformed index, or an index out of range.
    Syntax,
}

/// The claimed cardinality carried by the first data line: one non-negative
/// integer.
pub open spec fn count_val(l: Seq<u8>) -> Option<u32> {
    let ts = tokens_spec(l);
    if ts.len() == 1 {
        parse_u32_spec(ts[0])
    } else {
        None
    }
}

/// The node index carried by a data line: one integer in `[1, n]`.
pub open spec fn index_val(n: u32, l: Seq<u8>) -> Option<u32> {
    let ts = tokens_spec(l);
    if ts.len() == 1 && parse_u32_spec(ts[0]) is Some {
        let v = parse_u32_spec(ts[0]).unwrap();
        if 1 <= v <= n {
            Some(v)
        } else {
            None
        }
    } else {
        None
    }
}

/// Parses a line holding exactly one integer.
fn parse_single_u32(l: &[u8]) -> (r: Option<u32>)
    ensures
        r == count_val(l@),
{
    let ts = split_tokens(l);
    if ts.len() != 1 {
        return None;
    }
    assert(ts@.map_values(|t: Vec<u8>| t@)[0] == ts@[0]@);
    parse_u32((&ts[0]).as_slice())
}

/// Parses one node-index line.
fn parse_index(n: u32, l: &[u8]) -> (r: Option<u32>)
    ensures
        r == index_val(n, l@),
{
    let ts = split_tokens(l);
    if ts.len() != 1 {
        return None;
    }
    assert(ts@.map_values(|t: Vec<u8>| t@)[0] == ts@[0]@);
    match parse_u32((&ts[0]).as_slice()) {
        Some(v) => {
            if 1 <= v && v <= n {
                Some(v)
            } else {
                None
            }
        },
        None => None,
    }
}

/// The outcome of reading a solution from its significant lines: the first
/// carries the cardinality `k`, the next `k` each carry one index in
/// `[1, n]`; anything after those is ignored.
pub open spec fn solution_from_lines(n: u32, dl: Seq<Seq<u8>>) -> Result<
    Seq<u32>,
    SolutionParseError,
> {
    if dl.len() == 0 {
        Err(SolutionParseError::Incomplete)
    } else if count_val(dl[0]) is None {
        Err(SolutionParseError::Syntax)
    } else {
        let k = count_val(dl[0]).unwrap();
        let avail = dl.len() - 1;
        if exists|j: int| 0 <= j < k && j < avail && index_val(n, #[trigger] dl[1 + j]) is None {
            Err(SolutionParseError::Syntax)
        } else if avail < k {
            Err(SolutionParseError::Incomplete)
        } else {
            Ok(Seq::new(k as nat, |j: int| index_val(n, dl[1 + j]).unwrap()))
        }
    }
}

/// The outcome of reading a solver's raw output.
pub open spec fn solution_parse_result(n: u32, s: Seq<u8>) -> Result<Seq<u32>, SolutionParseError> {
    solution_from_lines(n, data_lines(s))
}

/// `s` with repeated values dropped, keeping first occurrences; `seen` holds
/// the values already taken.
pub open spec fn dedup_from(s: Seq<u32>, seen: Seq<u32>) -> Seq<u32>
    decreases s.len(),
{
    if s.len() == 0 {
        Seq::empty()
    } else if seen.contains(s[0]) {
        dedup_from(s.drop_first(), seen)
    } else {
        seq![s[0]] + dedup_from(s.drop_first(), seen.push(s[0]))
    }
}

/// `s` with repeated values dropped, keeping first occurrences.
pub open spec fn dedup(s: Seq<u32>) -> Seq<u32> {
    dedup_from(s, Seq::empty())
}

proof fn lemma_dedup_from_props(s: Seq<u32>, seen: Seq<u32>)
    ensures
        forall|x: u32|
            #[trigger] dedup_from(s, seen).contains(x) <==> s.contains(x) && !seen.contains(x),
        forall|i: int, j: int|
            0 <= i < j < dedup_from(s, seen).len() ==> dedup_from(s, seen)[i] != dedup_from(
                s,
                seen,
            )[j],
        forall|x: u32| seen.contains(x) ==> !dedup_from(s, seen).contains(x),
    decreases s.len(),
{
    if s.len() == 0 {
    } else if seen.contains(s[0]) {
        lemma_dedup_from_props(s.drop_first(), seen);
        assert forall|x: u32| #[trigger] dedup_from(s, seen).contains(x) implies s.contains(x)
            && !seen.contains(x) by {
            assert(s.drop_first().contains(x));
            let w = choose|i: int| 0 <= i < s.drop_first().len() && s.drop_first()[i] == x;
            assert(s[w + 1] == x);
        }
        assert forall|x: u32| s.contains(x) && !seen.contains(x) implies #[trigger] dedup_from(
            s,
            seen,
        ).contains(x) by {
            let w = choose|i: int| 0 <= i < s.len() && s[i] == x;
            assert(w != 0);
            assert(s.drop_first()[w - 1] == x);
        }
    } else {
        lemma_dedup_from_props(s.drop_first(), seen.push(s[0]));
        let d = dedup_from(s, seen);
        let rest = dedup_from(s.drop_first(), seen.push(s[0]));
        assert forall|x: u32| #[trigger] d.contains(x) implies s.contains(x) && !seen.contains(
            x,
        ) by {
            let w = choose|i: int| 0 <= i < d.len() && d[i] == x;
            if w == 0 {
                assert(s[0] == x);
            } else {
                assert(rest[w - 1] == x);
                assert(rest.contains(x));
                assert(s.drop_first().contains(x));
                let w2 = choose|i: int|
                    0 <= i < s.drop_first().len() && s.drop_first()[i] == x;
                assert(s[w2 + 1] == x);
                assert(!seen.push(s[0]).contains(x));
                assert(seen.contains(x) ==> seen.push(s[0]).contains(x)) by {
                    if seen.contains(x) {
                        let w3 = choose|i: int| 0 <= i < seen.len() && seen[i] == x;
                        assert(seen.push(s[0])[w3] == x);
                    }
                }
            }
        }
        assert forall|x: u32| s.contains(x) && !seen.contains(x) implies #[trigger] d.contains(
            x,
        ) by {
            if x == s[0] {
                assert(d[0] == x);
            } else {
                let w = choose|i: int| 0 <= i < s.len() && s[i] == x;
                assert(w != 0);
                assert(s.drop_first()[w - 1] == x);
                assert(!seen.push(s[0]).contains(x)) by {
                    if seen.push(s[0]).contains(x) {
                        let w3 = choose|i: int|
                            0 <= i < seen.push(s[0]).len() && seen.push(s[0])[i] == x;
                        if w3 < seen.len() {
                            assert(seen[w3] == x);
                        }
                    }
                }
                assert(rest.contains(x));
                let w4 = choose|i: int| 0 <= i < rest.len() && rest[i] == x;
                assert(d[w4 + 1] == x);
            }
        }
        assert forall|i: int, j: int| 0 <= i < j < d.len() implies d[i] != d[j] by {
            if i == 0 {
                assert(d[0] == s[0]);
                assert(rest[j - 1] == d[j]);
                assert(rest.contains(d[j]));
                assert(!seen.push(s[0]).contains(d[j]) && s.drop_first().contains(d[j]));
                assert(seen.push(s[0])[seen.len() as int] == s[0]);
            } else {
                assert(rest[i - 1] == d[i] && rest[j - 1] == d[j]);
            }
        }
        assert forall|x: u32| seen.contains(x) implies !d.contains(x) by {}
    }
}

/// Deduplication keeps exactly the values of its input, each once.
pub proof fn lemma_dedup_props(s: Seq<u32>)
    ensures
        forall|x: u32| #[trigger] dedup(s).contains(x) <==> s.contains(x),
        dedup(s).no_duplicates(),
{
    lemma_dedup_from_props(s, Seq::empty());
    assert(dedup(s).no_duplicates()) by {
        assert(forall|i: int, j: int|
            0 <= i < j < dedup(s).len() ==> dedup(s)[i] != dedup(s)[j]);
    }
}

/// Drops repeated values, keeping first occurrences.
pub fn dedup_nodes(vals: &Vec<u32>) -> (r: Vec<u32>)
    ensures
        r@ == dedup(vals@),
{
    let n = vals.len();
    let mut out: Vec<u32> = Vec::new();
    let mut i: usize = 0;
    assert(vals@.skip(0) =~= vals@);
    assert(out@ =~= Seq::<u32>::empty());
    assert(Seq::<u32>::empty() + dedup_from(vals@, Seq::empty()) =~= dedup(vals@));
    while i < n
        invariant
            n == vals@.len(),
            0 <= i <= n,
            dedup(vals@) == out@ + dedup_from(vals@.skip(i as int), out@),
        decreases n - i,
    {
        assert(vals@.skip(i as int).drop_first() =~= vals@.skip(i + 1));
        let ghost rest = vals@.skip(i as int);
        let ghost prev = out@;
        let x = vals[i];
        assert(rest[0] == x);
        if !contains_u32(&out, x) {
            out.push(x);
            proof {
                assert(dedup_from(rest, prev) == seq![x] + dedup_from(
                    vals@.skip(i + 1),
                    prev.push(x),
                ));
                assert(out@ =~= prev + seq![x]);
                assert(prev + (seq![x] + dedup_from(vals@.skip(i + 1), prev.push(x))) =~= (prev
                    + seq![x]) + dedup_from(vals@.skip(i + 1), out@));
            }
        } else {
            assert(dedup_from(rest, prev) == dedup_from(vals@.skip(i + 1), prev));
        }
        i += 1;
    }
    assert(vals@.skip(n as int) =~= Seq::<u32>::empty());
    out
}

/// Parses a solver's output against a graph on `n` nodes, dropping repeated
/// indices.
pub fn parse_solution(n: u32, data: &[u8]) -> (r: Result<Vec<u32>, SolutionParseError>)
    ensures
        match r {
            Ok(v) => {
                &&& solution_parse_result(n, data@) is Ok
                &&& v@ == dedup(solution_parse_result(n, data@).unwrap())
                &&& v@.no_duplicates()
                &&& forall|i: int| 0 <= i < v@.len() ==> 1 <= #[trigger] v@[i] <= n
            },
            Err(e) => solution_parse_result(n, data@) == Err::<Seq<u32>, _>(e),
        },
{
    let dl = crate::pace::split_data_lines(data);
    let ghost dlv = data_lines(data@);
    assert(dl@.map_values(|l: Vec<u8>| l@) == dlv);
    if dl.len() == 0 {
        return Err(SolutionParseError::Incomplete);
    }
    assert(dl@.map_values(|l: Vec<u8>| l@)[0] == dl@[0]@);
    let k = match parse_single_u32((&dl[0]).as_slice()) {
        Some(k) => k,
        None => {
            return Err(SolutionParseError::Syntax);
        },
    };
    let mut vals: Vec<u32> = Vec::new();
    let mut j: u32 = 0;
    while j < k
        invariant
            dlv == data_lines(data@),
            dlv == dl@.map_values(|l: Vec<u8>| l@),
            dlv.len() == dl@.len(),
            dlv.len() >= 1,
            count_val(dlv[0]) == Some(k),
            0 <= j <= k,
            j + 1 <= dlv.len(),
            vals@.len() == j,
            forall|i: int|
                0 <= i < j ==> index_val(n, #[trigger] dlv[1 + i]) == Some(vals@[i]),
            forall|i: int| 0 <= i < j ==> 1 <= #[trigger] vals@[i] <= n,
        decreases k - j,
    {
        if (j as usize) + 1 >= dl.len() {
            proof {
                assert forall|i: int| 0 <= i < k && i < dlv.len() - 1 implies index_val(
                    n,
                    #[trigger] dlv[1 + i],
                ) is Some by {
                    assert(i < j);
                    assert(index_val(n, dlv[1 + i]) == Some(vals@[i]));
                }
                assert(dlv.len() - 1 < k);
                assert(solution_from_lines(n, dlv) == Err::<Seq<u32>, _>(
                    SolutionParseError::Incomplete,
                ));
            }
            return Err(SolutionParseError::Incomplete);
        }
        assert(dl@.map_values(|l: Vec<u8>| l@)[1 + j] == dl@[1 + j as int]@);
        let v = match parse_index(n, (&dl[(j as usize) + 1]).as_slice()) {
            Some(v) => v,
            None => {
                proof {
                    assert(index_val(n, dlv[1 + j as int]) is None);
                    assert(exists|i: int|
                        0 <= i < k && i < dlv.len() - 1 && index_val(
                            n,
                            #[trigger] dlv[1 + i],
                        ) is None);
                    assert(solution_from_lines(n, dlv) == Err::<Seq<u32>, _>(
                        SolutionParseError::Syntax,
                    ));
                }
                return Err(SolutionParseError::Syntax);
            },
        };
        vals.push(v);
        j += 1;
    }
    proof {
        assert(forall|i: int|
            0 <= i < k && i < dlv.len() - 1 ==> index_val(n, #[trigger] dlv[1 + i]) is Some);
        assert(dlv.len() - 1 >= k);
        assert(vals@ =~= Seq::new(k as nat, |i: int| index_val(n, dlv[1 + i]).unwrap()));
        assert(solution_from_lines(n, dlv) == Ok::<_, SolutionParseError>(vals@));
        lemma_dedup_props(vals@);
    }
    let out = dedup_nodes(&vals);
    proof {
        assert forall|i: int| 0 <= i < out@.len() implies 1 <= #[trigger] out@[i] <= n by {
            assert(out@.contains(out@[i]));
            assert(vals@.contains(out@[i]));
            let w = choose|w: int| 0 <= w < vals@.len() && vals@[w] == out@[i];
        }
    }
    Ok(out)
}

/// Extra lines after the `k` announced indices leave a successfully parsed
/// solution unchanged.
pub proof fn lemma_solution_ignores_trailing(n: u32, dl: Seq<Seq<u8>>, extra: Seq<Seq<u8>>)
    requires
        solution_from_lines(n, dl) is Ok,
    ensures
        solution_from_lines(n, dl + extra) == solution_from_lines(n, dl),
{
    let full = dl + extra;
    assert(full.len() >= dl.len());
    assert(full[0] == dl[0]);
    let k = count_val(dl[0]).unwrap();
    assert(dl.len() - 1 >= k);
    assert forall|j: int| 0 <= j < k && j < full.len() - 1 implies index_val(
        n,
        #[trigger] full[1 + j],
    ) is Some by {
        assert(full[1 + j] == dl[1 + j]);
        assert(!(index_val(n, dl[1 + j]) is None));
    }
    assert(Seq::new(k as nat, |j: int| index_val(n, full[1 + j]).unwrap()) =~= Seq::new(
        k as nat,
        |j: int| index_val(n, dl[1 + j]).unwrap(),
    ));
}

/// The verdict on a solver's output for one instance.
#[derive(Debug, PartialEq, Eq)]
pub enum SolutionVerdict {
    /// A feasible dominating set, repeated indices dropped.
    Valid(Vec<u32>),
    /// Parsed, but some node is neither in the set nor adjacent to it.
    Infeasible,
    /// Malformed output.
    SyntaxError,
    /// The output ended before the announced cardinality was reached.
    IncompleteOutput,
}

/// Parses an instance body and a solver's output, and judges the output.
pub fn evaluate_solution(instance: &[u8], output: &[u8]) -> (r: Result<
    SolutionVerdict,
    GraphParseError,
>)
    ensures
        match graph_parse_result(instance@) {
            Err(e) => r == Err::<SolutionVerdict, _>(e),
            Ok((n, edges)) => match solution_parse_result(n, output@) {
                Err(SolutionParseError::Incomplete) => r == Ok::<_, GraphParseError>(
                    SolutionVerdict::IncompleteOutput,
                ),
                Err(SolutionParseError::Syntax) => r == Ok::<_, GraphParseError>(
                    SolutionVerdict::SyntaxError,
                ),
                Ok(vals) => {
                    &&& dominates(n, edges, dedup(vals)) ==> (r matches Ok(
                        SolutionVerdict::Valid(v)) && v@ == dedup(vals))
                    &&& !dominates(n, edges, dedup(vals)) ==> r == Ok::<_, GraphParseError>(
                        SolutionVerdict::Infeasible,
                    )
                },
            },
        },
{
    let g = match crate::pace::parse_instance(instance) {
        Ok(g) => g,
        Err(e) => {
            return Err(e);
        },
    };
    let sol = match parse_solution(g.n, output) {
        Ok(sol) => sol,
        Err(SolutionParseError::Incomplete) => {
            return Ok(SolutionVerdict::IncompleteOutput);
        },
        Err(SolutionParseError::Syntax) => {
            return Ok(SolutionVerdict::SyntaxError);
        },
    };
    if check_dominating(&g, &sol) {
        Ok(SolutionVerdict::Valid(sol))
    } else {
        Ok(SolutionVerdict::Infeasible)
    }
}

/// The node lines of a formatted solution: each value in decimal on its own
/// line.
pub open spec fn node_lines_spec(s: Seq<u32>) -> Seq<u8>
    decreases s.len(),
{
    if s.len() == 0 {
        Seq::empty()
    } else {
        node_lines_spec(s.drop_last()) + dec_rep(s.last() as nat) + seq!['\n' as u8]
    }
}

/// A solution in the solver output format: the cardinality on the first
/// line, then one node index per line.
pub open spec fn format_solution_spec(s: Seq<u32>) -> Seq<u8> {
    dec_rep(s.len() as nat) + seq!['\n' as u8] + node_lines_spec(s)
}

/// Writes a solution in the solver output format.
pub fn format_solution(sol: &Vec<u32>) -> (v: Vec<u8>)
    requires
        sol@.len() <= u32::MAX,
    ensures
        v@ == format_solution_spec(sol@),
{
    let k = sol.len();
    let mut v = u32_to_dec(k as u32);
    v.push(10);
    let ghost header = v@;
    let mut i: usize = 0;
    proof {
        assert(sol@.take(0) =~= Seq::<u32>::empty());
    }
    while i < k
        invariant
            k == sol@.len(),
            0 <= i <= k,
            v@ == header + node_lines_spec(sol@.take(i as int)),
        decreases k - i,
    {
        let d = u32_to_dec(sol[i]);
        push_bytes(&mut v, d.as_slice());
        v.push(10);
        proof {
            assert(sol@.take(i + 1).drop_last() =~= sol@.take(i as int));
            assert(sol@.take(i + 1).last() == sol@[i as int]);
            assert(v@ =~= header + node_lines_spec(sol@.take(i + 1)));
        }
        i += 1;
    }
    assert(sol@.take(k as int) =~= sol@);
    v
}

proof fn lemma_node_lines_front(s: Seq<u32>)
    requires
        s.len() > 0,
    ensures
        node_lines_spec(s) == dec_rep(s[0] as nat) + seq![nl()] + node_lines_spec(s.drop_first()),
    decreases s.len(),
{
    if s.len() == 1 {
        assert(s.drop_last() =~= Seq::<u32>::empty());
        assert(s.drop_first() =~= Seq::<u32>::empty());
        assert(s.last() == s[0]);
        assert(node_lines_spec(s) =~= dec_rep(s[0] as nat) + seq![nl()] + node_lines_spec(
            s.drop_first(),
        ));
    } else {
        lemma_node_lines_front(s.drop_last());
        assert(s.drop_last()[0] == s[0]);
        assert(s.drop_last().drop_first() =~= s.drop_first().drop_last());
        assert(s.drop_first().last() == s.last());
        assert(node_lines_spec(s.drop_first()) == node_lines_spec(s.drop_first().drop_last())
            + dec_rep(s.drop_first().last() as nat) + seq![nl()]);
        assert(node_lines_spec(s) =~= dec_rep(s[0] as nat) + seq![nl()] + node_lines_spec(
            s.drop_first(),
        ));
    }
}

proof fn lemma_lines_of_node_lines(sol: Seq<u32>)
    ensures
        crate::text::lines_from(node_lines_spec(sol), Seq::empty()) == Seq::new(
            sol.len(),
            |i: int| dec_rep(sol[i] as nat),
        ),
    decreases sol.len(),
{
    if sol.len() == 0 {
        assert(crate::text::lines_from(node_lines_spec(sol), Seq::<u8>::empty()) =~= Seq::new(
            0,
            |i: int| dec_rep(sol[i] as nat),
        ));
    } else {
        lemma_node_lines_front(sol);
        lemma_dec_rep_digits(sol[0] as nat);
        assert forall|i: int| 0 <= i < dec_rep(sol[0] as nat).len() implies #[trigger] dec_rep(
            sol[0] as nat,
        )[i] != nl() by {
            assert(is_digit(dec_rep(sol[0] as nat)[i]));
        }
        lemma_lines_chunk(
            dec_rep(sol[0] as nat),
            node_lines_spec(sol.drop_first()),
            Seq::empty(),
        );
        lemma_lines_of_node_lines(sol.drop_first());
        assert(Seq::<u8>::empty() + dec_rep(sol[0] as nat) =~= dec_rep(sol[0] as nat));
        assert(seq![dec_rep(sol[0] as nat)] + Seq::new(
            sol.drop_first().len(),
            |i: int| dec_rep(sol.drop_first()[i] as nat),
        ) =~= Seq::new(sol.len(), |i: int| dec_rep(sol[i] as nat)));
    }
}

proof fn lemma_digit_line_plain(l: Seq<u8>)
    requires
        all_digits(l),
        l.len() >= 1,
    ensures
        crate::text::trim_spec(l) == l,
        !crate::pace::line_skippable(l),
        tokens_spec(l) == seq![l],
    decreases l.len(),
{
    assert forall|i: int| 0 <= i < l.len() implies !is_ws(#[trigger] l[i]) by {
        assert(is_digit(l[i]));
    }
    lemma_trim_no_ws(l);
    assert(is_digit(l[0]));
    assert(l[0] != 'c' as u8);
    lemma_tokens_single(l, Seq::empty());
    assert(Seq::<u8>::empty() + l =~= l);
}

proof fn lemma_data_lines_of_digit_lines(ls: Seq<Seq<u8>>)
    requires
        forall|i: int|
            0 <= i < ls.len() ==> all_digits(#[trigger] ls[i]) && ls[i].len() >= 1,
    ensures
        crate::pace::data_lines_of(ls) == ls,
    decreases ls.len(),
{
    if ls.len() > 0 {
        lemma_digit_line_plain(ls[0]);
        assert(forall|i: int|
            0 <= i < ls.drop_first().len() ==> ls.drop_first()[i] == ls[i + 1]);
        lemma_data_lines_of_digit_lines(ls.drop_first());
        assert(seq![crate::text::trim_spec(ls[0])] + ls.drop_first() =~= ls);
    }
}

/// Writing a solution in the output format and reading it back yields the
/// same solution: the format loses nothing.
pub proof fn lemma_format_parse_round_trip(n: u32, sol: Seq<u32>)
    requires
        forall|i: int| 0 <= i < sol.len() ==> 1 <= #[trigger] sol[i] <= n,
        sol.len() <= u32::MAX,
    ensures
        solution_parse_result(n, format_solution_spec(sol)) == Ok::<Seq<u32>, SolutionParseError>(
            sol,
        ),
{
    let k = sol.len() as nat;
    let bytes = format_solution_spec(sol);
    lemma_dec_rep_digits(k);
    assert forall|i: int| 0 <= i < dec_rep(k).len() implies #[trigger] dec_rep(k)[i]
        != nl() by {
        assert(is_digit(dec_rep(k)[i]));
    }
    lemma_lines_chunk(dec_rep(k), node_lines_spec(sol), Seq::empty());
    lemma_lines_of_node_lines(sol);
    assert(Seq::<u8>::empty() + dec_rep(k) =~= dec_rep(k));
    let node_reps = Seq::new(sol.len(), |i: int| dec_rep(sol[i] as nat));
    let dl0 = seq![dec_rep(k)] + node_reps;
    assert(bytes =~= (dec_rep(k) + seq![nl()]) + node_lines_spec(sol));
    assert(dec_rep(k) + seq![nl()] + node_lines_spec(sol) =~= (dec_rep(k) + seq![nl()])
        + node_lines_spec(sol));
    assert(lines_spec(bytes) == dl0);
    assert forall|i: int|
        0 <= i < dl0.len() implies all_digits(#[trigger] dl0[i]) && dl0[i].len() >= 1 by {
        if i == 0 {
        } else {
            assert(dl0[i] == dec_rep(sol[i - 1] as nat));
            lemma_dec_rep_digits(sol[i - 1] as nat);
        }
    }
    lemma_data_lines_of_digit_lines(dl0);
    assert(data_lines(bytes) == dl0);
    lemma_digit_line_plain(dec_rep(k));
    lemma_dec_rep_val(k);
    assert(parse_u32_spec(dec_rep(k)) == Some(sol.len() as u32));
    assert(count_val(dl0[0]) == Some(sol.len() as u32));
    assert forall|j: int| 0 <= j < sol.len() implies index_val(n, #[trigger] dl0[1 + j])
        == Some(sol[j]) by {
        assert(dl0[1 + j] == dec_rep(sol[j] as nat));
        lemma_dec_rep_digits(sol[j] as nat);
        lemma_digit_line_plain(dec_rep(sol[j] as nat));
        lemma_dec_rep_val(sol[j] as nat);
        assert(parse_u32_spec(dec_rep(sol[j] as nat)) == Some(sol[j]));
    }
    assert(!(exists|j: int|
        0 <= j < sol.len() as u32 && j < dl0.len() - 1 && index_val(n, #[trigger] dl0[1 + j])
            is None));
    assert(Seq::new(k, |j: int| index_val(n, dl0[1 + j]).unwrap()) =~= sol);
    assert(solution_from_lines(n, dl0) == Ok::<Seq<u32>, SolutionParseError>(sol));
}

/// Dropping repeats from a solution without repeats changes nothing.
pub proof fn lemma_dedup_of_distinct(s: Seq<u32>)
    requires
        s.no_duplicates(),
    ensures
        dedup(s) == s,
{
    lemma_dedup_from_distinct(s, Seq::empty());
}

proof fn lemma_dedup_from_distinct(s: Seq<u32>, seen: Seq<u32>)
    requires
        s.no_duplicates(),
        forall|x: u32| #[trigger] seen.contains(x) ==> !s.contains(x),
    ensures
        dedup_from(s, seen) == s,
    decreases s.len(),
{
    if s.len() > 0 {
        assert(s.contains(s[0]));
        assert(!seen.contains(s[0]));
        assert(s.drop_first().no_duplicates()) by {
            assert(forall|i: int|
                0 <= i < s.drop_first().len() ==> s.drop_first()[i] == s[i + 1]);
        }
        assert forall|x: u32| #[trigger] seen.push(s[0]).contains(x) implies !s.drop_first()
            .contains(x) by {
            let w = choose|w: int|
                0 <= w < seen.push(s[0]).len() && seen.push(s[0])[w] == x;
            if w < seen.len() {
                assert(seen[w] == x);
                assert(seen.contains(x));
                if s.drop_first().contains(x) {
                    let w2 = choose|w2: int|
                        0 <= w2 < s.drop_first().len() && s.drop_first()[w2] == x;
                    assert(s[w2 + 1] == x);
                    assert(s.contains(x));
                }
            } else {
                assert(x == s[0]);
                if s.drop_first().contains(x) {
                    let w2 = choose|w2: int|
                        0 <= w2 < s.drop_first().len() && s.drop_first()[w2] == x;
                    assert(s[w2 + 1] == s[0]);
                }
            }
        }
        lemma_dedup_from_distinct(s.drop_first(), seen.push(s[0]));
        assert(seq![s[0]] + s.drop_first() =~= s);
    }
}

} // verus!
