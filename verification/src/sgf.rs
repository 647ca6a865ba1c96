//! The line-oriented text format ("SGF") and its reader.
//!
//! A file holds comment lines starting with `#` (skipped anywhere), one
//! header line `d <node_count> <edge_count>`, and body lines
//! `NODE_ID[:WEIGHT]|TARGET_ID[:WEIGHT],TARGET_ID[:WEIGHT],...` naming each
//! node's outgoing edges. Only the directed code `d` is supported. After the
//! input is consumed, the realized totals must equal the declared counts.

use crate::error::GraphError;
use crate::graph::MDGraph;
use crate::index_type::{IndexType, NodeIndex};
use crate::num::{find_byte_from, find_from, parse_usize, usize_parse};
use crate::weight::WeightType;
use vstd::prelude::*;

verus! {

/// ASCII whitespace, as the format's token separators.
pub open spec fn is_space(b: u8) -> bool {
    b == 32 || (9 <= b <= 13)
}

/// ASCII whitespace, as the format's token separators.
pub fn is_space_byte(b: u8) -> (r: bool)
    ensures
        r == is_space(b),
{
    b == 32 || (9 <= b && b <= 13)
}

/// `s` without leading and trailing whitespace.
pub open spec fn trim_spec(s: Seq<u8>) -> Seq<u8>
    decreases s.len(),
{
    if s.len() > 0 && is_space(s[0]) {
        trim_spec(s.skip(1))
    } else if s.len() > 0 && is_space(s.last()) {
        trim_spec(s.drop_last())
    } else {
        s
    }
}

/// The first position at or after `from` whose byte is whitespace (for
/// `want == true`) or non-whitespace (for `want == false`), or the length.
pub open spec fn seek_ws(s: Seq<u8>, from: int, want: bool) -> int
    decreases s.len() - from when from <= s.len()
{
    if from >= s.len() {
        s.len() as int
    } else if is_space(s[from]) == want {
        from
    } else {
        seek_ws(s, from + 1, want)
    }
}

/// The analogue of `num::lemma_find_from_char` for the whitespace scan.
proof fn lemma_seek_ws_char(s: Seq<u8>, from: int, want: bool, q: int)
    requires
        0 <= from <= q <= s.len(),
        forall|i: int| from <= i < q ==> is_space(#[trigger] s[i]) != want,
        q < s.len() ==> is_space(s[q]) == want,
    ensures
        seek_ws(s, from, want) == q,
    decreases q - from,
{
    if from < q {
        lemma_seek_ws_char(s, from + 1, want, q);
    }
}

/// A segment whose outside is all whitespace and whose ends are not is what
/// trimming leaves.
proof fn lemma_trim_bounds(s: Seq<u8>, lo: int, hi: int)
    requires
        0 <= lo <= hi <= s.len(),
        forall|i: int| 0 <= i < lo ==> is_space(#[trigger] s[i]),
        forall|i: int| hi <= i < s.len() ==> is_space(#[trigger] s[i]),
        lo < hi ==> !is_space(s[lo]) && !is_space(s[hi - 1]),
    ensures
        trim_spec(s) == s.subrange(lo, hi),
    decreases s.len(),
{
    if lo > 0 {
        assert(is_space(s[0]));
        let t = s.skip(1);
        assert(forall|i: int| 0 <= i < lo - 1 ==> is_space(#[trigger] t[i]));
        assert(forall|i: int| hi - 1 <= i < t.len() ==> is_space(#[trigger] t[i]));
        lemma_trim_bounds(t, lo - 1, hi - 1);
        assert(t.subrange(lo - 1, hi - 1) =~= s.subrange(lo, hi));
    } else if hi < s.len() {
        assert(is_space(s.last()));
        if s.len() > 0 && is_space(s[0]) {
            assert(lo == hi);
            let t = s.skip(1);
            assert(forall|i: int| 0 <= i < 0 ==> is_space(#[trigger] t[i]));
            assert(forall|i: int| 0 <= i < t.len() ==> is_space(#[trigger] t[i])) by {
                assert(forall|i: int| 0 <= i < t.len() ==> t[i] == s[i + 1]);
            }
            lemma_trim_bounds(t, 0, 0);
            assert(t.subrange(0, 0) =~= s.subrange(lo, hi));
        } else {
            let t = s.drop_last();
            assert(forall|i: int| 0 <= i < lo ==> is_space(#[trigger] t[i]));
            assert(forall|i: int| hi <= i < t.len() ==> is_space(#[trigger] t[i])) by {
                assert(forall|i: int| hi <= i < t.len() ==> t[i] == s[i]);
            }
            lemma_trim_bounds(t, lo, hi);
            assert(t.subrange(lo, hi) =~= s.subrange(lo, hi));
        }
    } else {
        if s.len() == 0 {
            assert(trim_spec(s) =~= s.subrange(lo, hi));
        } else {
            assert(lo == 0 && hi == s.len());
            if lo < hi {
                assert(!is_space(s[0]));
                assert(!is_space(s.last()));
                assert(s.subrange(0, s.len() as int) =~= s);
            }
        }
    }
}

/// The bounds of the whitespace-trimmed segment of `s`:
/// `s[lo..hi]` is `s` without leading and trailing whitespace.
pub fn trim_bounds(s: &[u8]) -> (r: (usize, usize))
    ensures
        r.0 <= r.1 <= s@.len(),
        s@.subrange(r.0 as int, r.1 as int) == trim_spec(s@),
{
    let mut lo: usize = 0;
    while lo < s.len() && is_space_byte(s[lo])
        invariant
            lo <= s@.len(),
            forall|i: int| 0 <= i < lo ==> is_space(#[trigger] s@[i]),
        decreases s@.len() - lo,
    {
        lo = lo + 1;
    }
    let mut hi: usize = s.len();
    while hi > lo && is_space_byte(s[hi - 1])
        invariant
            lo <= hi <= s@.len(),
            forall|i: int| 0 <= i < lo ==> is_space(#[trigger] s@[i]),
            forall|i: int| hi <= i < s@.len() ==> is_space(#[trigger] s@[i]),
        decreases hi,
    {
        hi = hi - 1;
    }
    proof {
        lemma_trim_bounds(s@, lo as int, hi as int);
    }
    (lo, hi)
}

/// The first position at or after `from` that is whitespace (`want`) or
/// non-whitespace (`!want`), or the length.
pub fn seek_ws_from(s: &[u8], from: usize, want: bool) -> (r: usize)
    requires
        from <= s@.len(),
    ensures
        from <= r <= s@.len(),
        r as int == seek_ws(s@, from as int, want),
{
    let mut j = from;
    while j < s.len() && is_space_byte(s[j]) != want
        invariant
            from <= j <= s@.len(),
            forall|i: int| from <= i < j ==> is_space(#[trigger] s@[i]) != want,
        decreases s@.len() - j,
    {
        j = j + 1;
    }
    proof {
        lemma_seek_ws_char(s@, from as int, want, j as int);
    }
    j
}

/// The input cut at every newline, the way a line reader hands lines out: no
/// line holds a newline, and a trailing newline produces no final empty line.
pub open spec fn split_lines_spec(s: Seq<u8>) -> Seq<Seq<u8>>
    decreases s.len(),
{
    if s.len() == 0 {
        Seq::empty()
    } else {
        let p = find_from(s, 0, 10);
        if 0 <= p < s.len() {
            seq![s.take(p)] + split_lines_spec(s.skip(p + 1))
        } else {
            seq![s]
        }
    }
}

/// Cuts the input at every newline.
pub fn split_lines(s: &[u8]) -> (r: Vec<Vec<u8>>)
    ensures
        r@.map_values(|v: Vec<u8>| v@) == split_lines_spec(s@),
{
    let mut lines: Vec<Vec<u8>> = Vec::new();
    let mut pos: usize = 0;
    proof {
        assert(s@.skip(0) =~= s@);
        assert(lines@.map_values(|v: Vec<u8>| v@) =~= Seq::<Seq<u8>>::empty());
        assert(Seq::<Seq<u8>>::empty() + split_lines_spec(s@) =~= split_lines_spec(s@));
    }
    while pos < s.len()
        invariant
            pos <= s@.len(),
            split_lines_spec(s@) == lines@.map_values(|v: Vec<u8>| v@) + split_lines_spec(
                s@.skip(pos as int),
            ),
        decreases s@.len() - pos,
    {
        let ghost prev_lines = lines@;
        let rest = &s[pos..s.len()];
        proof {
            assert(rest@ =~= s@.skip(pos as int));
        }
        let p = find_byte_from(rest, 0, 10);
        let mut cur: Vec<u8> = Vec::new();
        let mut i: usize = 0;
        while i < p
            invariant
                i <= p <= rest@.len(),
                rest@ == s@.skip(pos as int),
                pos <= s@.len(),
                cur@ == rest@.take(i as int),
            decreases p - i,
        {
            let b = rest[i];
            cur.push(b);
            proof {
                assert(cur@ =~= rest@.take(i + 1));
            }
            i = i + 1;
        }
        lines.push(cur);
        proof {
            assert(lines@.map_values(|v: Vec<u8>| v@) =~= prev_lines.map_values(|v: Vec<u8>| v@)
                + seq![rest@.take(p as int)]);
        }
        if p >= rest.len() {
            proof {
                assert(rest@.take(p as int) =~= rest@);
                assert(seq![rest@] + Seq::<Seq<u8>>::empty() =~= seq![rest@]);
                assert(split_lines_spec(s@.skip(pos as int)) == seq![rest@]);
                assert(prev_lines.map_values(|v: Vec<u8>| v@) + seq![rest@] =~= lines@.map_values(
                    |v: Vec<u8>| v@,
                ));
                assert(s@.skip(s@.len() as int) =~= Seq::<u8>::empty());
                assert(lines@.map_values(|v: Vec<u8>| v@) + split_lines_spec(Seq::<u8>::empty())
                    =~= lines@.map_values(|v: Vec<u8>| v@));
            }
            pos = s.len();
        } else {
            proof {
                assert(split_lines_spec(s@.skip(pos as int)) == seq![rest@.take(p as int)]
                    + split_lines_spec(rest@.skip(p + 1)));
                assert(rest@.skip(p + 1) =~= s@.skip(pos + p + 1));
                assert(prev_lines.map_values(|v: Vec<u8>| v@) + (seq![rest@.take(p as int)]
                    + split_lines_spec(rest@.skip(p + 1))) =~= lines@.map_values(|v: Vec<u8>| v@)
                    + split_lines_spec(s@.skip(pos + p + 1)));
            }
            pos = pos + p + 1;
        }
    }
    proof {
        assert(s@.skip(pos as int) =~= Seq::<u8>::empty());
        assert(lines@.map_values(|v: Vec<u8>| v@) + Seq::<Seq<u8>>::empty() =~= lines@.map_values(
            |v: Vec<u8>| v@,
        ));
    }
    lines
}

/// The abstract outcome of reading the format: the declared counts and the
/// graph contents they produce.
pub struct SgfModel<NodeWt, EdgeWt> {
    pub declared_nodes: usize,
    pub declared_edges: usize,
    pub nodes: Seq<NodeWt>,
    pub edges: Seq<EdgeWt>,
    pub endpoints: Seq<(usize, usize)>,
}

/// The graph as an abstract model beside its declared counts.
pub open spec fn model_of<NodeWt, EdgeWt, NodeIx, EdgeIx>(
    g: MDGraph<NodeWt, EdgeWt, NodeIx, EdgeIx>,
    dn: usize,
    dm: usize,
) -> SgfModel<NodeWt, EdgeWt> where
    NodeWt: WeightType,
    EdgeWt: WeightType,
    NodeIx: IndexType,
    EdgeIx: IndexType,
{
    SgfModel {
        declared_nodes: dn,
        declared_edges: dm,
        nodes: g.nodes(),
        edges: g.edges(),
        endpoints: g.eps(),
    }
}

/// What a (trimmed) header line declares: the direction code `d`, then a
/// node count and an edge count; anything after the third token is ignored.
pub open spec fn header_spec(line: Seq<u8>) -> Option<(usize, usize)> {
    let a1 = seek_ws(line, 0, false);
    let b1 = seek_ws(line, a1, true);
    let a2 = seek_ws(line, b1, false);
    let b2 = seek_ws(line, a2, true);
    let a3 = seek_ws(line, b2, false);
    let b3 = seek_ws(line, a3, true);
    if a1 >= line.len() {
        Option::None
    } else if !(b1 - a1 == 1 && line[a1] == 100) {
        Option::None
    } else if a2 >= line.len() {
        Option::None
    } else {
        match usize_parse(line.subrange(a2, b2)) {
            Option::None => Option::None,
            Option::Some(nn) => if a3 >= line.len() {
                Option::None
            } else {
                match usize_parse(line.subrange(a3, b3)) {
                    Option::None => Option::None,
                    Option::Some(mm) => Option::Some((nn, mm)),
                }
            },
        }
    }
}

/// One edge item `TARGET_ID[:WEIGHT]`: the target must parse and name a
/// declared node, the weight must parse where present, and the new edge
/// identifier must fit the index width.
pub open spec fn edge_one<NodeWt, EdgeWt, NodeIx, EdgeIx>(
    m: SgfModel<NodeWt, EdgeWt>,
    piece: Seq<u8>,
    nid: usize,
) -> Result<SgfModel<NodeWt, EdgeWt>, GraphError> where
    NodeWt: WeightType,
    EdgeWt: WeightType,
    NodeIx: IndexType,
    EdgeIx: IndexType,
{
    let colon = find_from(piece, 0, 58);
    match usize_parse(piece.take(colon)) {
        Option::None => Err(GraphError::BodyLineMalformed),
        Option::Some(tid) => {
            let wopt = if colon < piece.len() {
                EdgeWt::parse_spec(piece.skip(colon + 1))
            } else {
                Option::Some(EdgeWt::default_spec())
            };
            match wopt {
                Option::None => Err(GraphError::WeightParseError),
                Option::Some(w) => if tid >= m.declared_nodes {
                    Err(GraphError::IndexOutOfBounds)
                } else if m.edges.len() > EdgeIx::max_spec() {
                    Err(GraphError::CapacityExceeded)
                } else {
                    Ok(
                        SgfModel {
                            declared_nodes: m.declared_nodes,
                            declared_edges: m.declared_edges,
                            nodes: m.nodes,
                            edges: m.edges.push(w),
                            endpoints: m.endpoints.push((nid, tid)),
                        },
                    )
                },
            }
        },
    }
}

/// The comma-separated edge list of one body line, item by item.
pub open spec fn edges_steps<NodeWt, EdgeWt, NodeIx, EdgeIx>(
    m: SgfModel<NodeWt, EdgeWt>,
    s: Seq<u8>,
    nid: usize,
) -> Result<SgfModel<NodeWt, EdgeWt>, GraphError> where
    NodeWt: WeightType,
    EdgeWt: WeightType,
    NodeIx: IndexType,
    EdgeIx: IndexType,

    decreases s.len(),
{
    let c = find_from(s, 0, 44);
    if 0 <= c < s.len() {
        match edge_one::<NodeWt, EdgeWt, NodeIx, EdgeIx>(m, s.take(c), nid) {
            Err(e) => Err(e),
            Ok(m1) => edges_steps::<NodeWt, EdgeWt, NodeIx, EdgeIx>(m1, s.skip(c + 1), nid),
        }
    } else {
        edge_one::<NodeWt, EdgeWt, NodeIx, EdgeIx>(m, s, nid)
    }
}

/// One (trimmed) body line `NODE_ID[:WEIGHT]|EDGE_LIST`: the separator must
/// be present, the node id must parse and name a declared node, a present
/// weight overwrites that node's weight, and each edge item is appended. An
/// empty edge list adds no edges.
pub open spec fn body_step<NodeWt, EdgeWt, NodeIx, EdgeIx>(
    m: SgfModel<NodeWt, EdgeWt>,
    line: Seq<u8>,
) -> Result<SgfModel<NodeWt, EdgeWt>, GraphError> where
    NodeWt: WeightType,
    EdgeWt: WeightType,
    NodeIx: IndexType,
    EdgeIx: IndexType,
{
    let bar = find_from(line, 0, 124);
    if bar >= line.len() {
        Err(GraphError::BodyLineMalformed)
    } else {
        let left = line.take(bar);
        let right = line.skip(bar + 1);
        let colon = find_from(left, 0, 58);
        match usize_parse(left.take(colon)) {
            Option::None => Err(GraphError::BodyLineMalformed),
            Option::Some(nid) => if nid >= m.declared_nodes {
                Err(GraphError::IndexOutOfBounds)
            } else {
                let withw = if colon < left.len() {
                    match NodeWt::parse_spec(left.skip(colon + 1)) {
                        Option::None => Err(GraphError::WeightParseError),
                        Option::Some(w) => Ok(
                            SgfModel {
                                declared_nodes: m.declared_nodes,
                                declared_edges: m.declared_edges,
                                nodes: m.nodes.update(nid as int, w),
                                edges: m.edges,
                                endpoints: m.endpoints,
                            },
                        ),
                    }
                } else {
                    Ok(m)
                };
                match withw {
                    Err(e) => Err(e),
                    Ok(m1) => if right.len() == 0 {
                        Ok(m1)
                    } else {
                        edges_steps::<NodeWt, EdgeWt, NodeIx, EdgeIx>(m1, right, nid)
                    },
                }
            },
        }
    }
}

/// One raw line: comments pass the state through; the first other line must
/// be a header, which allocates the declared nodes with default weights;
/// every later line is a body line.
pub open spec fn line_step<NodeWt, EdgeWt, NodeIx, EdgeIx>(
    st: Option<SgfModel<NodeWt, EdgeWt>>,
    raw: Seq<u8>,
) -> Result<Option<SgfModel<NodeWt, EdgeWt>>, GraphError> where
    NodeWt: WeightType,
    EdgeWt: WeightType,
    NodeIx: IndexType,
    EdgeIx: IndexType,
{
    let line = trim_spec(raw);
    if line.len() > 0 && line[0] == 35 {
        Ok(st)
    } else {
        match st {
            Option::None => match header_spec(line) {
                Option::None => Err(GraphError::HeaderMalformed),
                Option::Some((nn, mm)) => if nn > 0 && nn - 1 > NodeIx::max_spec() {
                    Err(GraphError::CapacityExceeded)
                } else {
                    Ok(
                        Option::Some(
                            SgfModel {
                                declared_nodes: nn,
                                declared_edges: mm,
                                nodes: Seq::new(nn as nat, |i: int| NodeWt::default_spec()),
                                edges: Seq::empty(),
                                endpoints: Seq::empty(),
                            },
                        ),
                    )
                },
            },
            Option::Some(m) => match body_step::<NodeWt, EdgeWt, NodeIx, EdgeIx>(m, line) {
                Err(e) => Err(e),
                Ok(m1) => Ok(Option::Some(m1)),
            },
        }
    }
}

/// The lines in order, threading the state through `line_step`.
pub open spec fn sgf_lines_spec<NodeWt, EdgeWt, NodeIx, EdgeIx>(
    st: Option<SgfModel<NodeWt, EdgeWt>>,
    lines: Seq<Seq<u8>>,
) -> Result<Option<SgfModel<NodeWt, EdgeWt>>, GraphError> where
    NodeWt: WeightType,
    EdgeWt: WeightType,
    NodeIx: IndexType,
    EdgeIx: IndexType,

    decreases lines.len(),
{
    if lines.len() == 0 {
        Ok(st)
    } else {
        match line_step::<NodeWt, EdgeWt, NodeIx, EdgeIx>(st, lines[0]) {
            Err(e) => Err(e),
            Ok(st2) => sgf_lines_spec::<NodeWt, EdgeWt, NodeIx, EdgeIx>(st2, lines.skip(1)),
        }
    }
}

/// What reading a whole input yields: a header must have been seen, and the
/// realized totals must equal the declared counts.
pub open spec fn sgf_spec<NodeWt, EdgeWt, NodeIx, EdgeIx>(input: Seq<u8>) -> Result<
    SgfModel<NodeWt, EdgeWt>,
    GraphError,
> where
    NodeWt: WeightType,
    EdgeWt: WeightType,
    NodeIx: IndexType,
    EdgeIx: IndexType,
{
    match sgf_lines_spec::<NodeWt, EdgeWt, NodeIx, EdgeIx>(
        Option::None,
        split_lines_spec(input),
    ) {
        Err(e) => Err(e),
        Ok(Option::None) => Err(GraphError::HeaderMalformed),
        Ok(Option::Some(m)) => if m.nodes.len() == m.declared_nodes && m.endpoints.len()
            == m.declared_edges {
            Ok(m)
        } else {
            Err(GraphError::CountMismatch)
        },
    }
}

/// Reads a (trimmed) header line.
fn parse_header(line: &[u8]) -> (r: Result<(usize, usize), GraphError>)
    ensures
        match r {
            Ok(p) => header_spec(line@) == Option::Some(p),
            Err(e) => header_spec(line@) is None && e == GraphError::HeaderMalformed,
        },
{
    let a1 = seek_ws_from(line, 0, false);
    if a1 >= line.len() {
        return Err(GraphError::HeaderMalformed);
    }
    let b1 = seek_ws_from(line, a1, true);
    if !(b1 - a1 == 1 && line[a1] == 100) {
        return Err(GraphError::HeaderMalformed);
    }
    let a2 = seek_ws_from(line, b1, false);
    if a2 >= line.len() {
        return Err(GraphError::HeaderMalformed);
    }
    let b2 = seek_ws_from(line, a2, true);
    let nn = match parse_usize(&line[a2..b2]) {
        Option::None => {
            return Err(GraphError::HeaderMalformed);
        },
        Option::Some(x) => x,
    };
    let a3 = seek_ws_from(line, b2, false);
    if a3 >= line.len() {
        return Err(GraphError::HeaderMalformed);
    }
    let b3 = seek_ws_from(line, a3, true);
    let mm = match parse_usize(&line[a3..b3]) {
        Option::None => {
            return Err(GraphError::HeaderMalformed);
        },
        Option::Some(x) => x,
    };
    Ok((nn, mm))
}

/// Applies one (trimmed) body line to the graph. On an error the caller
/// discards the graph, so a failed line may leave edges it added before
/// failing.
fn apply_body_line<NodeWt, EdgeWt, NodeIx, EdgeIx>(
    g: &mut MDGraph<NodeWt, EdgeWt, NodeIx, EdgeIx>,
    dn: usize,
    dm: usize,
    line: &[u8],
) -> (r: Result<(), GraphError>) where
    NodeWt: WeightType,
    EdgeWt: WeightType,
    NodeIx: IndexType,
    EdgeIx: IndexType,

    requires
        old(g).wf(),
        old(g).node_cnt() == dn as int,
        dn == 0 || dn - 1 <= NodeIx::max_spec(),
    ensures
        final(g).wf(),
        final(g).node_cnt() == dn as int,
        match r {
            Ok(_) => body_step::<NodeWt, EdgeWt, NodeIx, EdgeIx>(
                model_of(*old(g), dn, dm),
                line@,
            ) == Ok::<SgfModel<NodeWt, EdgeWt>, GraphError>(model_of(*final(g), dn, dm)),
            Err(e) => body_step::<NodeWt, EdgeWt, NodeIx, EdgeIx>(
                model_of(*old(g), dn, dm),
                line@,
            ) == Err::<SgfModel<NodeWt, EdgeWt>, GraphError>(e),
        },
{
    let ghost m0 = model_of(*old(g), dn, dm);
    let bar = find_byte_from(line, 0, 124);
    if bar >= line.len() {
        return Err(GraphError::BodyLineMalformed);
    }
    let left = &line[0..bar];
    let right = &line[bar + 1..line.len()];
    proof {
        assert(left@ =~= line@.take(bar as int));
        assert(right@ =~= line@.skip(bar as int + 1));
    }
    let colon = find_byte_from(left, 0, 58);
    let idtok = &left[0..colon];
    proof {
        assert(idtok@ =~= left@.take(colon as int));
    }
    let nid = match parse_usize(idtok) {
        Option::None => {
            return Err(GraphError::BodyLineMalformed);
        },
        Option::Some(x) => x,
    };
    if nid >= dn {
        return Err(GraphError::IndexOutOfBounds);
    }
    if colon < left.len() {
        let wtok = &left[colon + 1..left.len()];
        proof {
            assert(wtok@ =~= left@.skip(colon as int + 1));
        }
        let w = match NodeWt::parse_weight(wtok) {
            Err(e) => {
                return Err(e);
            },
            Ok(w) => w,
        };
        let node = NodeIndex::<NodeIx>::new(nid);
        let wr = g.get_node_weight_mut(node);
        *wr = w;
    }
    let ghost m1 = model_of(*g, dn, dm);
    proof {
        assert(body_step::<NodeWt, EdgeWt, NodeIx, EdgeIx>(m0, line@) == (if right@.len() == 0 {
            Ok::<SgfModel<NodeWt, EdgeWt>, GraphError>(m1)
        } else {
            edges_steps::<NodeWt, EdgeWt, NodeIx, EdgeIx>(m1, right@, nid)
        }));
    }
    if right.len() == 0 {
        return Ok(());
    }
    let n_right = right.len();
    let mut pos: usize = 0;
    proof {
        assert(right@.skip(0) =~= right@);
    }
    loop
        invariant
            pos <= n_right,
            n_right == right@.len(),
            g.wf(),
            g.node_cnt() == dn as int,
            dn == 0 || dn - 1 <= NodeIx::max_spec(),
            nid < dn,
            edges_steps::<NodeWt, EdgeWt, NodeIx, EdgeIx>(
                model_of(*g, dn, dm),
                right@.skip(pos as int),
                nid,
            ) == edges_steps::<NodeWt, EdgeWt, NodeIx, EdgeIx>(m1, right@, nid),
            body_step::<NodeWt, EdgeWt, NodeIx, EdgeIx>(model_of(*old(g), dn, dm), line@)
                == edges_steps::<NodeWt, EdgeWt, NodeIx, EdgeIx>(m1, right@, nid),
        decreases n_right - pos,
    {
        let ghost pre = *g;
        let ghost s_cur = right@.skip(pos as int);
        let rest = &right[pos..n_right];
        proof {
            assert(rest@ =~= s_cur);
        }
        let c = find_byte_from(rest, 0, 44);
        let piece = &rest[0..c];
        proof {
            assert(piece@ =~= rest@.take(c as int));
            if c >= rest@.len() {
                assert(piece@ =~= rest@);
            }
        }
        let colon2 = find_byte_from(piece, 0, 58);
        let ttok = &piece[0..colon2];
        proof {
            assert(ttok@ =~= piece@.take(colon2 as int));
        }
        let tid = match parse_usize(ttok) {
            Option::None => {
                return Err(GraphError::BodyLineMalformed);
            },
            Option::Some(x) => x,
        };
        let w = if colon2 < piece.len() {
            let wtok = &piece[colon2 + 1..piece.len()];
            proof {
                assert(wtok@ =~= piece@.skip(colon2 as int + 1));
            }
            match EdgeWt::parse_weight(wtok) {
                Err(e) => {
                    return Err(e);
                },
                Ok(w) => w,
            }
        } else {
            EdgeWt::default_weight()
        };
        if tid >= dn {
            return Err(GraphError::IndexOutOfBounds);
        }
        let src = NodeIndex::<NodeIx>::new(nid);
        let tgt = NodeIndex::<NodeIx>::new(tid);
        match g.add_edge_with_weight(src, tgt, w) {
            Ok(k) => {
                proof {
                    assert(edge_one::<NodeWt, EdgeWt, NodeIx, EdgeIx>(
                        model_of(pre, dn, dm),
                        piece@,
                        nid,
                    ) == Ok::<SgfModel<NodeWt, EdgeWt>, GraphError>(model_of(*g, dn, dm)));
                }
            },
            Err(e) => {
                proof {
                    assert(edge_one::<NodeWt, EdgeWt, NodeIx, EdgeIx>(
                        model_of(pre, dn, dm),
                        piece@,
                        nid,
                    ) == Err::<SgfModel<NodeWt, EdgeWt>, GraphError>(e));
                }
                return Err(e);
            },
        }
        if c >= n_right - pos {
            proof {
                assert(c as int == find_from(s_cur, 0, 44));
                assert(c >= s_cur.len());
                assert(edges_steps::<NodeWt, EdgeWt, NodeIx, EdgeIx>(
                    model_of(pre, dn, dm),
                    s_cur,
                    nid,
                ) == Ok::<SgfModel<NodeWt, EdgeWt>, GraphError>(model_of(*g, dn, dm)));
            }
            return Ok(());
        }
        proof {
            assert(c as int == find_from(s_cur, 0, 44));
            assert(0 <= c < s_cur.len());
            assert(s_cur.skip(c as int + 1) =~= right@.skip(pos as int + c as int + 1));
            assert(edges_steps::<NodeWt, EdgeWt, NodeIx, EdgeIx>(
                model_of(pre, dn, dm),
                s_cur,
                nid,
            ) == edges_steps::<NodeWt, EdgeWt, NodeIx, EdgeIx>(
                model_of(*g, dn, dm),
                s_cur.skip(c as int + 1),
                nid,
            ));
        }
        pos = pos + c + 1;
    }
}

/// Reads the whole format: comments anywhere, one header, then body lines;
/// the realized totals must match the header's declared counts. On any
/// malformed token or count mismatch, the partial graph is discarded and the
/// specific error is returned.
pub fn read_sgf<NodeWt, EdgeWt, NodeIx, EdgeIx>(input: &[u8]) -> (r: Result<
    MDGraph<NodeWt, EdgeWt, NodeIx, EdgeIx>,
    GraphError,
>) where
    NodeWt: WeightType,
    EdgeWt: WeightType,
    NodeIx: IndexType,
    EdgeIx: IndexType,

    ensures
        match r {
            Ok(g) => {
                &&& g.wf()
                &&& sgf_spec::<NodeWt, EdgeWt, NodeIx, EdgeIx>(input@) matches Ok(m)
                    && g.nodes() == m.nodes && g.edges() == m.edges && g.eps() == m.endpoints
            },
            Err(e) => sgf_spec::<NodeWt, EdgeWt, NodeIx, EdgeIx>(input@) == Err::<
                SgfModel<NodeWt, EdgeWt>,
                GraphError,
            >(e),
        },
{
    let lines = split_lines(input);
    let ghost lseq = lines@.map_values(|v: Vec<u8>| v@);
    let mut graph: MDGraph<NodeWt, EdgeWt, NodeIx, EdgeIx> = MDGraph::new();
    let mut have_header = false;
    let mut dn: usize = 0;
    let mut dm: usize = 0;
    let mut li: usize = 0;
    proof {
        assert(lseq.skip(0) =~= lseq);
    }
    while li < lines.len()
        invariant
            li <= lines@.len(),
            lseq == lines@.map_values(|v: Vec<u8>| v@),
            lseq == split_lines_spec(input@),
            graph.wf(),
            have_header ==> graph.node_cnt() == dn as int && (dn == 0 || dn - 1
                <= NodeIx::max_spec()),
            !have_header ==> graph.nodes() == Seq::<NodeWt>::empty() && graph.edges()
                == Seq::<EdgeWt>::empty() && graph.eps() == Seq::<(usize, usize)>::empty(),
            sgf_lines_spec::<NodeWt, EdgeWt, NodeIx, EdgeIx>(
                if have_header {
                    Option::Some(model_of(graph, dn, dm))
                } else {
                    Option::None
                },
                lseq.skip(li as int),
            ) == sgf_lines_spec::<NodeWt, EdgeWt, NodeIx, EdgeIx>(Option::None, lseq),
        decreases lines@.len() - li,
    {
        let ghost st0: Option<SgfModel<NodeWt, EdgeWt>> = if have_header {
            Option::Some(model_of(graph, dn, dm))
        } else {
            Option::None
        };
        let ghost raw = lseq[li as int];
        proof {
            assert(lseq.skip(li as int)[0] == raw);
            assert(lseq.skip(li as int).skip(1) =~= lseq.skip(li as int + 1));
        }
        let lv = &lines[li];
        let lslice = lv.as_slice();
        proof {
            assert(lslice@ == raw);
        }
        let b = trim_bounds(lslice);
        let lo = b.0;
        let hi = b.1;
        let tline = &lslice[lo..hi];
        proof {
            assert(tline@ == trim_spec(raw));
        }
        if hi > lo && tline[0] == 35 {
            proof {
                assert(line_step::<NodeWt, EdgeWt, NodeIx, EdgeIx>(st0, raw) == Ok::<
                    Option<SgfModel<NodeWt, EdgeWt>>,
                    GraphError,
                >(st0));
            }
        } else if !have_header {
            match parse_header(tline) {
                Err(e) => {
                    proof {
                        assert(line_step::<NodeWt, EdgeWt, NodeIx, EdgeIx>(st0, raw) == Err::<
                            Option<SgfModel<NodeWt, EdgeWt>>,
                            GraphError,
                        >(GraphError::HeaderMalformed));
                    }
                    return Err(e);
                },
                Ok(p) => {
                    let nn = p.0;
                    let mm = p.1;
                    if nn > 0 && nn - 1 > NodeIx::max().index() {
                        proof {
                            assert(line_step::<NodeWt, EdgeWt, NodeIx, EdgeIx>(st0, raw) == Err::<
                                Option<SgfModel<NodeWt, EdgeWt>>,
                                GraphError,
                            >(GraphError::CapacityExceeded));
                        }
                        return Err(GraphError::CapacityExceeded);
                    }
                    graph.reserve_nodes(nn);
                    graph.reserve_edges(mm);
                    if nn > 0 {
                        match graph.add_nodes(nn) {
                            Ok(_) => {},
                            Err(e) => {
                                proof {
                                    assert(false);
                                }
                                return Err(e);
                            },
                        }
                    }
                    dn = nn;
                    dm = mm;
                    have_header = true;
                    proof {
                        assert(graph.nodes() =~= Seq::new(
                            nn as nat,
                            |i: int| NodeWt::default_spec(),
                        ));
                        assert(line_step::<NodeWt, EdgeWt, NodeIx, EdgeIx>(st0, raw) == Ok::<
                            Option<SgfModel<NodeWt, EdgeWt>>,
                            GraphError,
                        >(Option::Some(model_of(graph, dn, dm))));
                    }
                },
            }
        } else {
            let ghost gpre = graph;
            match apply_body_line(&mut graph, dn, dm, tline) {
                Ok(_) => {
                    proof {
                        assert(line_step::<NodeWt, EdgeWt, NodeIx, EdgeIx>(st0, raw) == Ok::<
                            Option<SgfModel<NodeWt, EdgeWt>>,
                            GraphError,
                        >(Option::Some(model_of(graph, dn, dm))));
                    }
                },
                Err(e) => {
                    proof {
                        assert(line_step::<NodeWt, EdgeWt, NodeIx, EdgeIx>(st0, raw) == Err::<
                            Option<SgfModel<NodeWt, EdgeWt>>,
                            GraphError,
                        >(e));
                    }
                    return Err(e);
                },
            }
        }
        li = li + 1;
    }
    proof {
        assert(lseq.skip(li as int) =~= Seq::<Seq<u8>>::empty());
    }
    if !have_header {
        return Err(GraphError::HeaderMalformed);
    }
    proof {
        graph.lemma_eps_len();
    }
    let nc = graph.node_count();
    let ec = graph.edge_count();
    if nc != dn || ec != dm {
        return Err(GraphError::CountMismatch);
    }
    Ok(graph)
}

} // verus!
