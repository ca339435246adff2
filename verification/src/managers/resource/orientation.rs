use super::topology::icosahedron_spec;
use vstd::prelude::*;

verus! {

/// The corner that follows corner `j` around its triangle, in an index
/// buffer of triangles.
pub open spec fn next_corner(j: int) -> int {
    3 * (j / 3) + (j % 3 + 1) % 3
}

/// The edge of a triangle that starts at corner `j` of the index buffer
/// `s`: from that corner to the next one around the triangle.
pub open spec fn directed_edge(s: Seq<u16>, j: int) -> (u16, u16) {
    (s[j], s[next_corner(j)])
}

/// The edge that starts at corner `j` of the triangle buffer `s` is also an
/// edge of another triangle, run the other way there.
pub open spec fn edge_runs_back(s: Seq<u16>, j: int) -> bool {
    exists|p: int|
        0 <= p < s.len() && p / 3 != j / 3 && #[trigger] directed_edge(s, p) == (
            directed_edge(s, j).1,
            directed_edge(s, j).0,
        )
}

/// For each corner of the icosahedron, the corner of another face where the
/// same edge runs the other way.
spec fn icosahedron_edge_partner() -> Seq<int> {
    seq![
        5, 14, 42, 48, 8, 0, 56, 9, 4, 7, 23, 12, 11, 17, 1, 20, 46, 13, 22, 31,
        15, 26, 18, 10, 55, 29, 21, 57, 32, 25, 35, 19, 28, 38, 47, 30, 59, 41, 33, 49,
        44, 37, 2, 45, 40, 43, 16, 34, 3, 39, 51, 50, 58, 54, 53, 24, 6, 27, 52, 36,
    ]
}

#[verifier::opaque]
spec fn partnered_at(s: Seq<u16>, j: int) -> bool {
    let p = icosahedron_edge_partner()[j];
    &&& s[j] < 12
    &&& s[j] != s[next_corner(j)]
    &&& 0 <= p < 60
    &&& p / 3 != j / 3
    &&& s[p] == s[next_corner(j)]
    &&& s[next_corner(p)] == s[j]
}

spec fn partnered_range(s: Seq<u16>, lo: int, hi: int) -> bool
    decreases hi - lo,
{
    if hi <= lo {
        true
    } else {
        partnered_at(s, hi - 1) && partnered_range(s, lo, hi - 1)
    }
}

proof fn lemma_partnered_range(s: Seq<u16>, lo: int, hi: int, j: int)
    requires
        partnered_range(s, lo, hi),
        lo <= j < hi,
    ensures
        partnered_at(s, j),
    decreases hi - lo,
{
    if j < hi - 1 {
        lemma_partnered_range(s, lo, hi - 1, j);
    }
}

proof fn lemma_partnered_chunk_0()
    ensures
        partnered_range(icosahedron_spec(), 0, 10),
{
    reveal(partnered_at);
    reveal_with_fuel(partnered_range, 11);
}

proof fn lemma_partnered_chunk_1()
    ensures
        partnered_range(icosahedron_spec(), 10, 20),
{
    reveal(partnered_at);
    reveal_with_fuel(partnered_range, 11);
}

proof fn lemma_partnered_chunk_2()
    ensures
        partnered_range(icosahedron_spec(), 20, 30),
{
    reveal(partnered_at);
    reveal_with_fuel(partnered_range, 11);
}

proof fn lemma_partnered_chunk_3()
    ensures
        partnered_range(icosahedron_spec(), 30, 40),
{
    reveal(partnered_at);
    reveal_with_fuel(partnered_range, 11);
}

proof fn lemma_partnered_chunk_4()
    ensures
        partnered_range(icosahedron_spec(), 40, 50),
{
    reveal(partnered_at);
    reveal_with_fuel(partnered_range, 11);
}

proof fn lemma_partnered_chunk_5()
    ensures
        partnered_range(icosahedron_spec(), 50, 60),
{
    reveal(partnered_at);
    reveal_with_fuel(partnered_range, 11);
}

proof fn lemma_partnered(j: int)
    requires
        0 <= j < 60,
    ensures
        partnered_at(icosahedron_spec(), j),
{
    let s = icosahedron_spec();
    if j < 10 {
        lemma_partnered_chunk_0();
        lemma_partnered_range(s, 0, 10, j);
    } else if j < 20 {
        lemma_partnered_chunk_1();
        lemma_partnered_range(s, 10, 20, j);
    } else if j < 30 {
        lemma_partnered_chunk_2();
        lemma_partnered_range(s, 20, 30, j);
    } else if j < 40 {
        lemma_partnered_chunk_3();
        lemma_partnered_range(s, 30, 40, j);
    } else if j < 50 {
        lemma_partnered_chunk_4();
        lemma_partnered_range(s, 40, 50, j);
    } else {
        lemma_partnered_chunk_5();
        lemma_partnered_range(s, 50, 60, j);
    }
}

/// Where each directed edge `(a, b)` of the icosahedron starts, at index
/// `12 * a + b`, and -1 for pairs that are no such edge.
spec fn icosahedron_edge_corner() -> Seq<int> {
    seq![
        -1, 42, -1, -1, 0, -1, 40, -1, -1, 3, -1, 49,
        2, -1, -1, -1, 14, -1, 43, -1, 17, -1, 46, -1,
        -1, -1, -1, 25, -1, 55, -1, 27, -1, 53, -1, 58,
        -1, -1, 29, -1, -1, 26, -1, 32, 22, -1, 19, -1,
        5, 1, -1, -1, -1, 9, -1, -1, 12, 8, -1, -1,
        -1, -1, 24, 21, 7, -1, -1, -1, 10, 56, -1, -1,
        44, 45, -1, -1, -1, -1, -1, 38, -1, -1, 34, 41,
        -1, -1, 57, 28, -1, -1, 33, -1, -1, -1, 30, 36,
        -1, 13, -1, 18, 11, 23, -1, -1, -1, -1, 15, -1,
        48, -1, 54, -1, 4, 6, -1, -1, -1, -1, -1, 51,
        -1, 16, -1, 31, -1, -1, 47, 35, 20, -1, -1, -1,
        39, -1, 52, -1, -1, -1, 37, 59, -1, 50, -1, -1,
    ]
}

#[verifier::opaque]
spec fn corner_found_at(s: Seq<u16>, j: int) -> bool {
    icosahedron_edge_corner()[12 * s[j] + s[next_corner(j)]] == j
}

spec fn corners_found_range(s: Seq<u16>, lo: int, hi: int) -> bool
    decreases hi - lo,
{
    if hi <= lo {
        true
    } else {
        corner_found_at(s, hi - 1) && corners_found_range(s, lo, hi - 1)
    }
}

proof fn lemma_corners_found_range(s: Seq<u16>, lo: int, hi: int, j: int)
    requires
        corners_found_range(s, lo, hi),
        lo <= j < hi,
    ensures
        corner_found_at(s, j),
    decreases hi - lo,
{
    if j < hi - 1 {
        lemma_corners_found_range(s, lo, hi - 1, j);
    }
}

proof fn lemma_unique_chunk_0()
    ensures
        corners_found_range(icosahedron_spec(), 0, 10),
{
    reveal(corner_found_at);
    reveal_with_fuel(corners_found_range, 11);
}

proof fn lemma_unique_chunk_1()
    ensures
        corners_found_range(icosahedron_spec(), 10, 20),
{
    reveal(corner_found_at);
    reveal_with_fuel(corners_found_range, 11);
}

proof fn lemma_unique_chunk_2()
    ensures
        corners_found_range(icosahedron_spec(), 20, 30),
{
    reveal(corner_found_at);
    reveal_with_fuel(corners_found_range, 11);
}

proof fn lemma_unique_chunk_3()
    ensures
        corners_found_range(icosahedron_spec(), 30, 40),
{
    reveal(corner_found_at);
    reveal_with_fuel(corners_found_range, 11);
}

proof fn lemma_unique_chunk_4()
    ensures
        corners_found_range(icosahedron_spec(), 40, 50),
{
    reveal(corner_found_at);
    reveal_with_fuel(corners_found_range, 11);
}

proof fn lemma_unique_chunk_5()
    ensures
        corners_found_range(icosahedron_spec(), 50, 60),
{
    reveal(corner_found_at);
    reveal_with_fuel(corners_found_range, 11);
}

proof fn lemma_corner_found(j: int)
    requires
        0 <= j < 60,
    ensures
        corner_found_at(icosahedron_spec(), j),
{
    let s = icosahedron_spec();
    if j < 10 {
        lemma_unique_chunk_0();
        lemma_corners_found_range(s, 0, 10, j);
    } else if j < 20 {
        lemma_unique_chunk_1();
        lemma_corners_found_range(s, 10, 20, j);
    } else if j < 30 {
        lemma_unique_chunk_2();
        lemma_corners_found_range(s, 20, 30, j);
    } else if j < 40 {
        lemma_unique_chunk_3();
        lemma_corners_found_range(s, 30, 40, j);
    } else if j < 50 {
        lemma_unique_chunk_4();
        lemma_corners_found_range(s, 40, 50, j);
    } else {
        lemma_unique_chunk_5();
        lemma_corners_found_range(s, 50, 60, j);
    }
}

/// No directed edge starts at two corners of a buffer in which the edge
/// starting at each corner leads back to it through `icosahedron_edge_corner`.
proof fn lemma_edges_unique_from_table(s: Seq<u16>)
    requires
        forall|j: int| 0 <= j < 60 ==> #[trigger] corner_found_at(s, j),
    ensures
        forall|j: int, k: int|
            0 <= j < 60 && 0 <= k < 60 && #[trigger] directed_edge(s, j) == #[trigger] directed_edge(s, k)
                ==> j == k,
{
    reveal(corner_found_at);
    assert forall|j: int, k: int|
        0 <= j < 60 && 0 <= k < 60 && #[trigger] directed_edge(s, j) == #[trigger] directed_edge(s, k)
            implies j == k by {
        assert(corner_found_at(s, j));
        assert(corner_found_at(s, k));
    }
}

/// A buffer of twenty triangles in which every corner has a partner (see
/// `partnered_at`) is closed and wound the same way all over.
proof fn lemma_closed_from_partners(s: Seq<u16>)
    requires
        s.len() == 60,
        forall|j: int| 0 <= j < 60 ==> #[trigger] partnered_at(s, j),
    ensures
        forall|j: int| 0 <= j < 60 ==> #[trigger] s[j] < 12,
        forall|j: int| 0 <= j < 60 ==> #[trigger] directed_edge(s, j).0 != directed_edge(s, j).1,
        forall|j: int| 0 <= j < 60 ==> #[trigger] edge_runs_back(s, j),
{
    reveal(partnered_at);
    assert forall|j: int| 0 <= j < 60 implies #[trigger] edge_runs_back(s, j) by {
        assert(partnered_at(s, j));
        let p = icosahedron_edge_partner()[j];
        assert(directed_edge(s, p) == (directed_edge(s, j).1, directed_edge(s, j).0));
    }
    assert forall|j: int| 0 <= j < 60 implies #[trigger] s[j] < 12 by {
        assert(partnered_at(s, j));
    }
    assert forall|j: int| 0 <= j < 60 implies #[trigger] directed_edge(s, j).0 != directed_edge(s, j).1 by {
        assert(partnered_at(s, j));
    }
}

/// The icosahedron is a closed surface wound the same way all over: twenty
/// triangles over the twelve vertices, each with three distinct corners, and
/// every edge of a face is also an edge of another face, run the other way
/// there, while no edge runs the same way in two faces. So each edge joins
/// exactly two faces, all faces turn the same way seen from outside, and
/// none is missing.
pub proof fn lemma_icosahedron_closed_and_oriented()
    ensures
        icosahedron_spec().len() == 60,
        forall|j: int| 0 <= j < 60 ==> #[trigger] icosahedron_spec()[j] < 12,
        forall|j: int|
            0 <= j < 60 ==> #[trigger] directed_edge(icosahedron_spec(), j).0 != directed_edge(
                icosahedron_spec(),
                j,
            ).1,
        forall|j: int| 0 <= j < 60 ==> #[trigger] edge_runs_back(icosahedron_spec(), j),
        forall|j: int, k: int|
            0 <= j < 60 && 0 <= k < 60 && #[trigger] directed_edge(icosahedron_spec(), j)
                == #[trigger] directed_edge(icosahedron_spec(), k) ==> j == k,
{
    let s = icosahedron_spec();
    assert forall|j: int| 0 <= j < 60 implies #[trigger] partnered_at(s, j) by {
        lemma_partnered(j);
    }
    lemma_closed_from_partners(s);
    assert forall|j: int| 0 <= j < 60 implies #[trigger] corner_found_at(s, j) by {
        lemma_corner_found(j);
    }
    lemma_edges_unique_from_table(s);
}

} // verus!
