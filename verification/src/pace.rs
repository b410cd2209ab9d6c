//! The PACE dominating-set text format: significant lines, the instance
//! header, and the graph model.
use vstd::prelude::*;

use crate::text::{
    lines_spec, parse_u32, parse_u32_spec, split_lines, split_tokens, tokens_spec, trim_bytes,
    trim_spec,
};

verus! {

/// A line carries no data when, once trimmed, it is empty or starts with `c`.
pub open spec fn line_skippable(l: Seq<u8>) -> bool {
    trim_spec(l).len() == 0 || trim_spec(l)[0] == 'c' as u8
}

/// The trimmed significant lines of a sequence of raw lines.
pub open spec fn data_lines_of(ls: Seq<Seq<u8>>) -> Seq<Seq<u8>>
    decreases ls.len(),
{
    if ls.len() == 0 {
        Seq::empty()
    } else {
        let rest = data_lines_of(ls.drop_first());
        if line_skippable(ls[0]) {
            rest
        } else {
            seq![trim_spec(ls[0])] + rest
        }
    }
}

/// The trimmed significant lines of a byte string: comment lines (leading `c`)
/// and blank lines are dropped, the others are trimmed.
pub open spec fn data_lines(s: Seq<u8>) -> Seq<Seq<u8>> {
    data_lines_of(lines_spec(s))
}

/// Splits a byte string into its trimmed significant lines.
pub fn split_data_lines(data: &[u8]) -> (r: Vec<Vec<u8>>)
    ensures
        r@.map_values(|l: Vec<u8>| l@) == data_lines(data@),
{
    let raw = split_lines(data);
    let ghost raw_view = raw@.map_values(|l: Vec<u8>| l@);
    let n = raw.len();
    let mut out: Vec<Vec<u8>> = Vec::new();
    let mut i: usize = 0;
    assert(raw_view.skip(0) =~= raw_view);
    assert(out@.map_values(|l: Vec<u8>| l@) =~= Seq::<Seq<u8>>::empty());
    assert(Seq::<Seq<u8>>::empty() + data_lines_of(raw_view) =~= data_lines_of(raw_view));
    while i < n
        invariant
            n == raw@.len(),
            raw_view == raw@.map_values(|l: Vec<u8>| l@),
            0 <= i <= n,
            data_lines_of(raw_view) == out@.map_values(|l: Vec<u8>| l@) + data_lines_of(
                raw_view.skip(i as int),
            ),
        decreases n - i,
    {
        assert(raw_view.skip(i as int).drop_first() =~= raw_view.skip(i + 1));
        assert(raw_view.skip(i as int)[0] == raw_view[i as int]);
        let t = trim_bytes(raw[i].as_slice());
        assert(t@ == trim_spec(raw_view[i as int]));
        if t.len() > 0 && t[0] != 99 {
            let ghost prev = out@.map_values(|l: Vec<u8>| l@);
            out.push(t);
            proof {
                assert(!line_skippable(raw_view[i as int]));
                assert(out@.map_values(|l: Vec<u8>| l@) =~= prev + seq![
                    trim_spec(raw_view[i as int]),
                ]);
                assert(prev + (seq![trim_spec(raw_view[i as int])] + data_lines_of(
                    raw_view.skip(i + 1),
                )) =~= (prev + seq![trim_spec(raw_view[i as int])]) + data_lines_of(
                    raw_view.skip(i + 1),
                ));
            }
        } else {
            assert(line_skippable(raw_view[i as int]));
        }
        i += 1;
    }
    assert(raw_view.skip(n as int) =~= Seq::<Seq<u8>>::empty());
    out
}

/// The node counts announced by a PACE header line `p ds N M`.
pub open spec fn header_val(l: Seq<u8>) -> Option<(u32, u32)> {
    let ts = tokens_spec(l);
    if ts.len() == 4 && ts[0] == seq!['p' as u8] && ts[1] == seq!['d' as u8, 's' as u8]
        && parse_u32_spec(ts[2]) is Some && parse_u32_spec(ts[3]) is Some {
        Some((parse_u32_spec(ts[2]).unwrap(), parse_u32_spec(ts[3]).unwrap()))
    } else {
        None
    }
}

/// Parses a PACE header line.
pub fn parse_header(l: &[u8]) -> (r: Option<(u32, u32)>)
    ensures
        r == header_val(l@),
{
    let ts = split_tokens(l);
    let ghost tsv = tokens_spec(l@);
    if ts.len() != 4 {
        return None;
    }
    assert(ts@.map_values(|t: Vec<u8>| t@)[0] == ts@[0]@);
    assert(ts@.map_values(|t: Vec<u8>| t@)[1] == ts@[1]@);
    assert(ts@.map_values(|t: Vec<u8>| t@)[2] == ts@[2]@);
    assert(ts@.map_values(|t: Vec<u8>| t@)[3] == ts@[3]@);
    let t0 = (&ts[0]);
    if !(t0.len() == 1 && t0[0] == 112) {
        assert(ts@[0]@ != seq!['p' as u8]) by {
            if ts@[0]@.len() == 1 && ts@[0]@[0] == 'p' as u8 {
                assert(ts@[0]@ =~= seq!['p' as u8]);
            }
        }
        return None;
    }
    assert(ts@[0]@ =~= seq!['p' as u8]);
    let t1 = (&ts[1]);
    if !(t1.len() == 2 && t1[0] == 100 && t1[1] == 115) {
        assert(ts@[1]@ != seq!['d' as u8, 's' as u8]) by {
            if ts@[1]@.len() == 2 && ts@[1]@[0] == 'd' as u8 && ts@[1]@[1] == 's' as u8 {
                assert(ts@[1]@ =~= seq!['d' as u8, 's' as u8]);
            }
        }
        return None;
    }
    assert(ts@[1]@ =~= seq!['d' as u8, 's' as u8]);
    let n = match parse_u32((&ts[2]).as_slice()) {
        Some(n) => n,
        None => {
            return None;
        },
    };
    let m = match parse_u32((&ts[3]).as_slice()) {
        Some(m) => m,
        None => {
            return None;
        },
    };
    Some((n, m))
}

/// An edge joins two distinct nodes, both in `[1, n]`.
pub open spec fn edge_wf(n: u32, e: (u32, u32)) -> bool {
    1 <= e.0 <= n && 1 <= e.1 <= n && e.0 != e.1
}

/// The edge carried by a data line of an instance body: exactly two integers,
/// distinct, both in `[1, n]`.
pub open spec fn edge_val(n: u32, l: Seq<u8>) -> Option<(u32, u32)> {
    let ts = tokens_spec(l);
    if ts.len() == 2 && parse_u32_spec(ts[0]) is Some && parse_u32_spec(ts[1]) is Some {
        let u = parse_u32_spec(ts[0]).unwrap();
        let v = parse_u32_spec(ts[1]).unwrap();
        if edge_wf(n, (u, v)) {
            Some((u, v))
        } else {
            None
        }
    } else {
        None
    }
}

/// Parses one edge line.
pub fn parse_edge(n: u32, l: &[u8]) -> (r: Option<(u32, u32)>)
    ensures
        r == edge_val(n, l@),
{
    let ts = split_tokens(l);
    if ts.len() != 2 {
        return None;
    }
    assert(ts@.map_values(|t: Vec<u8>| t@)[0] == ts@[0]@);
    assert(ts@.map_values(|t: Vec<u8>| t@)[1] == ts@[1]@);
    let u = match parse_u32((&ts[0]).as_slice()) {
        Some(u) => u,
        None => {
            return None;
        },
    };
    let v = match parse_u32((&ts[1]).as_slice()) {
        Some(v) => v,
        None => {
            return None;
        },
    };
    if 1 <= u && u <= n && 1 <= v && v <= n && u != v {
        Some((u, v))
    } else {
        None
    }
}

/// A graph in the PACE model: `n` nodes named `1..=n` and a list of edges.
#[derive(Debug)]
pub struct Graph {
    pub n: u32,
    pub m: u32,
    pub edges: Vec<(u32, u32)>,
}

impl Graph {
    /// The edge list length matches the header count and every edge is
    /// well-formed.
    pub open spec fn wf(&self) -> bool {
        &&& self.edges@.len() == self.m
        &&& forall|i: int| 0 <= i < self.edges@.len() ==> edge_wf(self.n, self.edges@[i])
    }
}

/// Why an instance body was rejected.
#[derive(Clone, Copy, PartialEq, Eq, Structural, Debug)]
pub enum GraphParseError {
    /// The first significant line is not a `p ds N M` header.
    MissingHeader,
    /// A line among the first `M` after the header is not a well-formed edge.
    BadEdge,
    /// Fewer than `M` significant lines follow the header.
    MissingEdges,
}

/// The outcome of reading an instance body from its significant lines: the
/// header, then its `m` count of edge lines; later lines carry no meaning.
pub open spec fn graph_from_lines(dl: Seq<Seq<u8>>) -> Result<
    (u32, Seq<(u32, u32)>),
    GraphParseError,
> {
    if dl.len() == 0 || header_val(dl[0]) is None {
        Err(GraphParseError::MissingHeader)
    } else {
        let (n, m) = header_val(dl[0]).unwrap();
        let avail = dl.len() - 1;
        if exists|j: int|
            0 <= j < m && j < avail && edge_val(n, #[trigger] dl[1 + j]) is None {
            Err(GraphParseError::BadEdge)
        } else if avail < m {
            Err(GraphParseError::MissingEdges)
        } else {
            Ok((n, Seq::new(m as nat, |j: int| edge_val(n, dl[1 + j]).unwrap())))
        }
    }
}

/// The outcome of reading an instance body.
pub open spec fn graph_parse_result(s: Seq<u8>) -> Result<(u32, Seq<(u32, u32)>), GraphParseError> {
    graph_from_lines(data_lines(s))
}

/// Parses a PACE instance body into a graph.
pub fn parse_instance(data: &[u8]) -> (r: Result<Graph, GraphParseError>)
    ensures
        match r {
            Ok(g) => {
                &&& g.wf()
                &&& graph_parse_result(data@) == Ok::<_, GraphParseError>((g.n, g.edges@))
                &&& g.m == g.edges@.len()
            },
            Err(e) => graph_parse_result(data@) == Err::<(u32, Seq<(u32, u32)>), _>(e),
        },
{
    let dl = split_data_lines(data);
    let ghost dlv = data_lines(data@);
    assert(dl@.map_values(|l: Vec<u8>| l@) == dlv);
    if dl.len() == 0 {
        return Err(GraphParseError::MissingHeader);
    }
    assert(dl@.map_values(|l: Vec<u8>| l@)[0] == dl@[0]@);
    let header = parse_header((&dl[0]).as_slice());
    let (n, m) = match header {
        Some(p) => p,
        None => {
            return Err(GraphParseError::MissingHeader);
        },
    };
    let mut edges: Vec<(u32, u32)> = Vec::new();
    let mut j: u32 = 0;
    while j < m
        invariant
            dlv == data_lines(data@),
            dlv == dl@.map_values(|l: Vec<u8>| l@),
            dlv.len() == dl@.len(),
            header_val(dlv[0]) == Some((n, m)),
            dlv.len() >= 1,
            0 <= j <= m,
            j + 1 <= dlv.len(),
            edges@.len() == j,
            forall|i: int|
                0 <= i < j ==> edge_val(n, #[trigger] dlv[1 + i]) == Some(edges@[i]),
        decreases m - j,
    {
        if (j as usize) + 1 >= dl.len() {
            proof {
                assert forall|i: int| 0 <= i < m && i < dlv.len() - 1 implies edge_val(
                    n,
                    #[trigger] dlv[1 + i],
                ) is Some by {
                    assert(i < j);
                    assert(edge_val(n, dlv[1 + i]) == Some(edges@[i]));
                }
                assert(dlv.len() - 1 < m);
                assert(graph_from_lines(dlv) == Err::<(u32, Seq<(u32, u32)>), _>(
                    GraphParseError::MissingEdges,
                ));
            }
            return Err(GraphParseError::MissingEdges);
        }
        assert(dl@.map_values(|l: Vec<u8>| l@)[1 + j] == dl@[1 + j as int]@);
        let e = match parse_edge(n, (&dl[(j as usize) + 1]).as_slice()) {
            Some(e) => e,
            None => {
                proof {
                    assert(edge_val(n, dlv[1 + j as int]) is None);
                    assert(exists|i: int|
                        0 <= i < m && i < dlv.len() - 1 && edge_val(
                            n,
                            #[trigger] dlv[1 + i],
                        ) is None);
                    assert(graph_from_lines(dlv) == Err::<(u32, Seq<(u32, u32)>), _>(
                        GraphParseError::BadEdge,
                    ));
                }
                return Err(GraphParseError::BadEdge);
            },
        };
        edges.push(e);
        j += 1;
    }
    proof {
        assert(forall|i: int|
            0 <= i < m && i < dlv.len() - 1 ==> edge_val(n, #[trigger] dlv[1 + i]) is Some);
        assert(dlv.len() - 1 >= m);
        assert(edges@ =~= Seq::new(m as nat, |i: int| edge_val(n, dlv[1 + i]).unwrap()));
    }
    Ok(Graph { n, m, edges })
}

} // verus!
