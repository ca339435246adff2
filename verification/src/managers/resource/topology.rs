use vstd::prelude::*;

verus! {

/// Index `k` of the line list of a grid of `n` by `n` vertices, numbered row
/// by row: first one line per column, from the first row to the last, then
/// one line per row, from its first vertex to its last. Indices are 16 bits
/// wide and wrap.
pub open spec fn grid_line_index(n: int, k: int) -> u16 {
    if k < 2 * n {
        let col = k / 2;
        if k % 2 == 0 {
            col as u16
        } else {
            (n * n - (n - col)) as u16
        }
    } else {
        let row = (k - 2 * n) / 2;
        if k % 2 == 0 {
            (row * n) as u16
        } else {
            ((row + 1) * n - 1) as u16
        }
    }
}

/// The line list of a grid of `num_lines` by `num_lines` vertices: two
/// indices per line, the column lines first.
pub fn grid_line_indices(num_lines: u32) -> (r: Vec<u16>)
    requires
        num_lines > 2,
        num_lines * num_lines <= u32::MAX,
    ensures
        r@.len() == 4 * num_lines,
        forall|k: int| 0 <= k < r@.len() ==> r@[k] == grid_line_index(num_lines as int, k),
{
    let n = num_lines;
    let nn = n * n;
    assert(n <= n * n) by (nonlinear_arith)
        requires
            n > 2,
    ;
    let mut indices: Vec<u16> = Vec::new();
    let mut col: u32 = 0;
    while col < n
        invariant
            n == num_lines,
            nn == n * n,
            n <= nn,
            n > 2,
            col <= n,
            indices@.len() == 2 * col,
            forall|k: int| 0 <= k < indices@.len() ==> indices@[k] == grid_line_index(n as int, k),
        decreases n - col,
    {
        let top = nn - (n - col);
        proof {
            assert(grid_line_index(n as int, 2 * col as int) == col as u16) by {
                assert((2 * col as int) / 2 == col as int);
                assert((2 * col as int) % 2 == 0);
            }
            assert(grid_line_index(n as int, 2 * col as int + 1) == top as u16) by {
                assert((2 * col as int + 1) / 2 == col as int);
                assert((2 * col as int + 1) % 2 == 1);
            }
        }
        indices.push(col as u16);
        indices.push(top as u16);
        col = col + 1;
    }
    let mut row: u32 = 0;
    while row < n
        invariant
            n == num_lines,
            nn == n * n,
            n > 2,
            row <= n,
            indices@.len() == 2 * n + 2 * row,
            forall|k: int| 0 <= k < indices@.len() ==> indices@[k] == grid_line_index(n as int, k),
        decreases n - row,
    {
        proof {
            assert(row * n <= (n - 1) * n) by (nonlinear_arith)
                requires
                    row < n,
            ;
            assert((row + 1) * n <= n * n) by (nonlinear_arith)
                requires
                    row < n,
            ;
            assert((row + 1) * n == row * n + n) by (nonlinear_arith);
        }
        let first = row * n;
        let last = first + n - 1;
        proof {
            let k0 = 2 * n + 2 * row;
            assert(grid_line_index(n as int, k0 as int) == first as u16) by {
                assert((k0 - 2 * n) / 2 == row as int);
                assert((k0 as int) % 2 == 0);
            }
            assert(grid_line_index(n as int, k0 + 1) == last as u16) by {
                assert((k0 + 1 - 2 * n) / 2 == row as int);
                assert((k0 as int + 1) % 2 == 1);
            }
        }
        indices.push(first as u16);
        indices.push(last as u16);
        row = row + 1;
    }
    indices
}

/// Index `k` of the line list of a closed loop of `n` points: line `i` joins
/// point `i` to point `i + 1`, and the last one joins back to point 0.
pub open spec fn loop_line_index(n: int, k: int) -> u16 {
    if k == 2 * n - 1 {
        0
    } else if k % 2 == 0 {
        (k / 2) as u16
    } else {
        (k / 2 + 1) as u16
    }
}

/// The line list of a closed loop of `num_pts` points.
pub fn circle_line_indices(num_pts: u32) -> (r: Vec<u16>)
    requires
        num_pts > 2,
    ensures
        r@.len() == 2 * num_pts,
        forall|k: int| 0 <= k < r@.len() ==> r@[k] == loop_line_index(num_pts as int, k),
{
    let mut indices: Vec<u16> = Vec::new();
    let mut i: u32 = 0;
    while i < num_pts
        invariant
            num_pts > 2,
            i <= num_pts,
            indices@.len() == 2 * i,
            forall|k: int|
                0 <= k < indices@.len() ==> #[trigger] indices@[k] == (if k % 2 == 0 {
                    (k / 2) as u16
                } else {
                    (k / 2 + 1) as u16
                }),
        decreases num_pts - i,
    {
        proof {
            assert((2 * i as int) / 2 == i as int);
            assert((2 * i as int) % 2 == 0);
            assert((2 * i as int + 1) / 2 == i as int);
            assert((2 * i as int + 1) % 2 == 1);
        }
        indices.push(i as u16);
        indices.push((i + 1) as u16);
        i = i + 1;
    }
    let last = indices.len() - 1;
    indices.set(last, 0);
    proof {
        assert forall|k: int| 0 <= k < indices@.len() implies indices@[k] == loop_line_index(
            num_pts as int,
            k,
        ) by {
            if k != last as int {
                assert(indices@[k] == (if k % 2 == 0 {
                    (k / 2) as u16
                } else {
                    (k / 2 + 1) as u16
                }));
            }
        }
    }
    indices
}

/// The values of a sequence of vertex numbers, as integers.
pub open spec fn as_ints(s: Seq<u32>) -> Seq<int> {
    s.map_values(|x: u32| x as int)
}

/// The triangles of segment `j` of latitude row `i` of a sphere of `m` rows
/// and `l` segments per row, over a grid of `m + 1` rows of `l + 1`
/// vertices: the row's upper triangle unless it is the top row, then its
/// lower triangle unless it is the bottom row.
pub open spec fn lat_long_segment(m: int, l: int, i: int, j: int) -> Seq<int> {
    let k1 = i * (l + 1) + j;
    let k2 = k1 + l + 1;
    (if i != 0 {
        seq![k1, k2, k1 + 1]
    } else {
        Seq::empty()
    }) + (if i != m - 1 {
        seq![k1 + 1, k2, k2 + 1]
    } else {
        Seq::empty()
    })
}

/// The triangles of the first `n` segments of row `i`.
pub open spec fn lat_long_row(m: int, l: int, i: int, n: int) -> Seq<int>
    decreases n,
{
    if n <= 0 {
        Seq::empty()
    } else {
        lat_long_row(m, l, i, n - 1) + lat_long_segment(m, l, i, n - 1)
    }
}

/// The triangles of the first `n` rows of a sphere of `m` rows and `l`
/// segments per row, as corners numbered in the vertex grid.
pub open spec fn lat_long_corners(m: int, l: int, n: int) -> Seq<int>
    decreases n,
{
    if n <= 0 {
        Seq::empty()
    } else {
        lat_long_corners(m, l, n - 1) + lat_long_row(m, l, n - 1, l)
    }
}

/// The number of triangle corners in the first `i` rows of a sphere of `m`
/// rows, with `seg` segments per row: the top row has one triangle per
/// segment, the rows below two, the bottom row one.
pub open spec fn corners_before_row(m: int, l: int, i: int) -> int {
    if i == 0 {
        0
    } else if i < m {
        6 * l * i - 3 * l
    } else {
        6 * l * (m - 1)
    }
}

/// The number of corners in one segment of row `i`.
pub open spec fn corners_per_segment(m: int, i: int) -> int {
    if i == 0 || i == m - 1 {
        3
    } else {
        6
    }
}

/// The triangle corners of a latitude/longitude sphere of `num_lat_segs`
/// rows and `num_long_segs` segments per row, each row and segment count
/// raised to at least 3, as vertex numbers in the grid of rows of
/// `segments + 1` vertices from the top pole down.
pub fn lat_long_sphere_corners(num_lat_segs: u32, num_long_segs: u32) -> (r: Vec<u32>)
    requires
        (if num_lat_segs < 3 { 3 } else { num_lat_segs as int } + 1) * (if num_long_segs < 3 {
            3
        } else {
            num_long_segs as int
        } + 1) <= u32::MAX,
    ensures
        ({
            let m = if num_lat_segs < 3 { 3 } else { num_lat_segs as int };
            let l = if num_long_segs < 3 { 3 } else { num_long_segs as int };
            &&& as_ints(r@) == lat_long_corners(m, l, m)
            &&& r@.len() == 6 * l * (m - 1)
            &&& forall|k: int| 0 <= k < r@.len() ==> #[trigger] r@[k] < (m + 1) * (l + 1)
        }),
{
    let m: u32 = if num_lat_segs < 3 { 3 } else { num_lat_segs };
    let l: u32 = if num_long_segs < 3 { 3 } else { num_long_segs };
    let ghost bound = (m + 1) * (l + 1);
    let mut corners: Vec<u32> = Vec::new();
    let mut i: u32 = 0;
    while i < m
        invariant
            m >= 3,
            l >= 3,
            bound == (m + 1) * (l + 1),
            bound <= u32::MAX,
            i <= m,
            as_ints(corners@) == lat_long_corners(m as int, l as int, i as int),
            corners@.len() == corners_before_row(m as int, l as int, i as int),
            forall|k: int| 0 <= k < corners@.len() ==> #[trigger] corners@[k] < bound,
        decreases m - i,
    {
        proof {
            assert(i * (l + 1) + (l + 1) <= m * (l + 1)) by (nonlinear_arith)
                requires
                    i < m,
            ;
            assert(m * (l + 1) + l + 1 == bound) by (nonlinear_arith)
                requires
                    bound == (m + 1) * (l + 1),
            ;
        }
        let mut k1: u32 = i * (l + 1);
        let mut k2: u32 = k1 + (l + 1);
        let mut j: u32 = 0;
        let ghost row_start = corners@.len();
        while j < l
            invariant
                m >= 3,
                l >= 3,
                bound == (m + 1) * (l + 1),
                bound <= u32::MAX,
                i < m,
                j <= l,
                i * (l + 1) + (l + 1) <= m * (l + 1),
                m * (l + 1) + l + 1 == bound,
                k1 == i * (l + 1) + j,
                k2 == k1 + l + 1,
                as_ints(corners@) == lat_long_corners(m as int, l as int, i as int)
                    + lat_long_row(m as int, l as int, i as int, j as int),
                corners@.len() == row_start + j * corners_per_segment(m as int, i as int),
                forall|k: int| 0 <= k < corners@.len() ==> #[trigger] corners@[k] < bound,
            decreases l - j,
        {
            let ghost before = corners@;
            proof {
                if i + 1 < m {
                    assert((i + 1) * (l + 1) + (l + 1) <= m * (l + 1)) by (nonlinear_arith)
                        requires
                            i + 1 < m,
                    ;
                    assert((i + 1) * (l + 1) == i * (l + 1) + l + 1) by (nonlinear_arith);
                }
            }
            if i != 0 {
                corners.push(k1);
                corners.push(k2);
                corners.push(k1 + 1);
            }
            if i != m - 1 {
                corners.push(k1 + 1);
                corners.push(k2);
                corners.push(k2 + 1);
            }
            proof {
                assert(as_ints(corners@) =~= as_ints(before) + lat_long_segment(
                    m as int,
                    l as int,
                    i as int,
                    j as int,
                ));
                assert(j * corners_per_segment(m as int, i as int) + corners_per_segment(
                    m as int,
                    i as int,
                ) == (j + 1) * corners_per_segment(m as int, i as int)) by (nonlinear_arith);
            }
            k1 = k1 + 1;
            k2 = k2 + 1;
            j = j + 1;
        }
        proof {
            assert(l * corners_per_segment(m as int, i as int) == corners_per_segment(
                m as int,
                i as int,
            ) * l) by (nonlinear_arith);
            assert(6 * l * (i + 1) == 6 * l * i + 6 * l) by (nonlinear_arith);
            assert(6 * l * (m - 1) == 6 * l * i + 3 * l - 3 * l + 6 * l * (m - 1 - i)) by (
            nonlinear_arith);
        }
        i = i + 1;
    }
    corners
}

/// The index buffer of a latitude/longitude sphere from its triangle
/// corners: with shared vertices the corners themselves, cut to 16 bits;
/// otherwise every corner gets a vertex of its own, numbered in order.
pub fn lat_long_sphere_indices(corners: &Vec<u32>, shared_vertices: bool) -> (r: Vec<u16>)
    requires
        !shared_vertices ==> corners@.len() <= u16::MAX,
    ensures
        r@.len() == corners@.len(),
        forall|k: int|
            0 <= k < r@.len() ==> #[trigger] r@[k] == if shared_vertices {
                corners@[k] as u16
            } else {
                k as u16
            },
{
    let mut indices: Vec<u16> = Vec::new();
    let mut k: usize = 0;
    while k < corners.len()
        invariant
            !shared_vertices ==> corners@.len() <= u16::MAX,
            k <= corners@.len(),
            indices@.len() == k,
            forall|q: int|
                0 <= q < k ==> #[trigger] indices@[q] == if shared_vertices {
                    corners@[q] as u16
                } else {
                    q as u16
                },
        decreases corners@.len() - k,
    {
        if shared_vertices {
            indices.push(corners[k] as u16);
        } else {
            indices.push(k as u16);
        }
        k = k + 1;
    }
    indices
}

/// The triangles of an icosahedron, as corners numbered in its twelve
/// vertices.
pub open spec fn icosahedron_spec() -> Seq<u16> {
    seq![
        0, 4, 1, 0, 9, 4, 9, 5, 4, 4, 5, 8, 4, 8, 1,
        8, 10, 1, 8, 3, 10, 5, 3, 8, 5, 2, 3, 2, 7, 3,
        7, 10, 3, 7, 6, 10, 7, 11, 6, 11, 0, 6, 0, 1, 6,
        6, 1, 10, 9, 0, 11, 9, 11, 2, 9, 2, 5, 7, 2, 11,
    ]
}

/// The index buffer of an icosahedron.
pub fn icosahedron_indices() -> (r: Vec<u16>)
    ensures
        r@ == icosahedron_spec(),
{
    let r: Vec<u16> = vec![
        0, 4, 1, 0, 9, 4, 9, 5, 4, 4, 5, 8, 4, 8, 1,
        8, 10, 1, 8, 3, 10, 5, 3, 8, 5, 2, 3, 2, 7, 3,
        7, 10, 3, 7, 6, 10, 7, 11, 6, 11, 0, 6, 0, 1, 6,
        6, 1, 10, 9, 0, 11, 9, 11, 2, 9, 2, 5, 7, 2, 11,
    ];
    assert(r@ =~= icosahedron_spec());
    r
}

/// Where vertex `c` of the six that a subdivided triangle gets sits among
/// the triangle's corners `(p0, p1, p2)`: the corners themselves, then the
/// middles of p0 p1, of p0 p2 and of p1 p2, as pairs of corner positions.
pub open spec fn subdivision_vertex(c: int) -> (int, int) {
    if c == 0 {
        (0, 0)
    } else if c == 1 {
        (1, 1)
    } else if c == 2 {
        (2, 2)
    } else if c == 3 {
        (0, 1)
    } else if c == 4 {
        (0, 2)
    } else {
        (1, 2)
    }
}

/// The corners of the four triangles that replace one, among the six
/// vertices of `subdivision_vertex`.
pub open spec fn subdivision_corners() -> Seq<int> {
    seq![0, 3, 4, 3, 1, 5, 3, 5, 4, 4, 5, 2]
}

/// One step of sphere subdivision on the triangle list `indices`: every
/// triangle gets six vertices of its own, each a vertex of the previous step
/// (a pair of equal numbers) or the middle of two (a pair of different
/// numbers), and is replaced by four triangles over them.
pub fn subdivide_triangles(indices: &Vec<u16>) -> (r: (Vec<(u16, u16)>, Vec<u16>))
    requires
        indices@.len() * 4 <= usize::MAX,
    ensures
        ({
            let t = indices@.len() / 3;
            &&& r.0@.len() == 6 * t
            &&& r.1@.len() == 12 * t
            &&& forall|q: int, c: int|
                0 <= q < t && 0 <= c < 6 ==> #[trigger] r.0@[6 * q + c] == (
                    indices@[3 * q + subdivision_vertex(c).0],
                    indices@[3 * q + subdivision_vertex(c).1],
                )
            &&& forall|q: int, c: int|
                0 <= q < t && 0 <= c < 12 ==> #[trigger] r.1@[12 * q + c] == (6 * q
                    + subdivision_corners()[c]) as u16
        }),
{
    let t = indices.len() / 3;
    let mut verts: Vec<(u16, u16)> = Vec::new();
    let mut tris: Vec<u16> = Vec::new();
    let mut q: usize = 0;
    while q < t
        invariant
            t == indices@.len() / 3,
            indices@.len() * 4 <= usize::MAX,
            q <= t,
            verts@.len() == 6 * q,
            tris@.len() == 12 * q,
            forall|p: int, c: int|
                0 <= p < q && 0 <= c < 6 ==> #[trigger] verts@[6 * p + c] == (
                    indices@[3 * p + subdivision_vertex(c).0],
                    indices@[3 * p + subdivision_vertex(c).1],
                ),
            forall|p: int, c: int|
                0 <= p < q && 0 <= c < 12 ==> #[trigger] tris@[12 * p + c] == (6 * p
                    + subdivision_corners()[c]) as u16,
        decreases t - q,
    {
        let a = indices[3 * q];
        let b = indices[3 * q + 1];
        let c = indices[3 * q + 2];
        let ghost v0 = verts@;
        let ghost t0 = tris@;
        verts.push((a, a));
        verts.push((b, b));
        verts.push((c, c));
        verts.push((a, b));
        verts.push((a, c));
        verts.push((b, c));
        let nv = 6 * q;
        tris.push(nv as u16);
        tris.push((nv + 3) as u16);
        tris.push((nv + 4) as u16);
        tris.push((nv + 3) as u16);
        tris.push((nv + 1) as u16);
        tris.push((nv + 5) as u16);
        tris.push((nv + 3) as u16);
        tris.push((nv + 5) as u16);
        tris.push((nv + 4) as u16);
        tris.push((nv + 4) as u16);
        tris.push((nv + 5) as u16);
        tris.push((nv + 2) as u16);
        proof {
            assert forall|p: int, k: int|
                0 <= p < q + 1 && 0 <= k < 6 implies #[trigger] verts@[6 * p + k] == (
                indices@[3 * p + subdivision_vertex(k).0],
                indices@[3 * p + subdivision_vertex(k).1],
            ) by {
                if p < q {
                    assert(verts@[6 * p + k] == v0[6 * p + k]);
                }
            }
            assert forall|p: int, k: int|
                0 <= p < q + 1 && 0 <= k < 12 implies #[trigger] tris@[12 * p + k] == (6 * p
                + subdivision_corners()[k]) as u16 by {
                if p < q {
                    assert(tris@[12 * p + k] == t0[12 * p + k]);
                }
            }
        }
        q = q + 1;
    }
    (verts, tris)
}

/// The last step of sphere generation: every corner of the triangle list
/// `indices` gets a vertex of its own (the first result: which vertex it
/// copies), and the triangles are numbered in order with their winding
/// turned around.
pub fn flatten_triangles(indices: &Vec<u16>) -> (r: (Vec<u16>, Vec<u16>))
    ensures
        ({
            let t = indices@.len() / 3;
            &&& r.0@.len() == 3 * t
            &&& r.0@ == indices@.take(3 * t as int)
            &&& r.1@.len() == 3 * t
            &&& forall|q: int|
                0 <= q < t ==> {
                    &&& #[trigger] r.1@[3 * q] == (3 * q) as u16
                    &&& r.1@[3 * q + 1] == (3 * q + 2) as u16
                    &&& r.1@[3 * q + 2] == (3 * q + 1) as u16
                }
        }),
{
    let n = indices.len();
    let t = n / 3;
    let mut sources: Vec<u16> = Vec::new();
    let mut tris: Vec<u16> = Vec::new();
    let mut q: usize = 0;
    while q < t
        invariant
            n == indices@.len(),
            t == n / 3,
            q <= t,
            sources@ == indices@.take(3 * q as int),
            tris@.len() == 3 * q,
            forall|p: int|
                0 <= p < q ==> {
                    &&& #[trigger] tris@[3 * p] == (3 * p) as u16
                    &&& tris@[3 * p + 1] == (3 * p + 2) as u16
                    &&& tris@[3 * p + 2] == (3 * p + 1) as u16
                },
        decreases t - q,
    {
        assert(3 * q + 3 <= n) by (nonlinear_arith)
            requires
                q < t,
                t == n / 3,
        ;
        let base = 3 * q;
        let ghost t0 = tris@;
        sources.push(indices[base]);
        sources.push(indices[base + 1]);
        sources.push(indices[base + 2]);
        tris.push(base as u16);
        tris.push((base + 2) as u16);
        tris.push((base + 1) as u16);
        proof {
            assert(sources@ =~= indices@.take(3 * (q + 1) as int));
            assert forall|p: int| 0 <= p < q + 1 implies {
                &&& #[trigger] tris@[3 * p] == (3 * p) as u16
                &&& tris@[3 * p + 1] == (3 * p + 2) as u16
                &&& tris@[3 * p + 2] == (3 * p + 1) as u16
            } by {
                if p < q {
                    assert(tris@[3 * p] == t0[3 * p]);
                    assert(tris@[3 * p + 1] == t0[3 * p + 1]);
                    assert(tris@[3 * p + 2] == t0[3 * p + 2]);
                }
            }
        }
        q = q + 1;
    }
    (sources, tris)
}

} // verus!
