use vstd::prelude::*;
use std::collections::BTreeMap;
use crate::hex::Hex;

verus! {

/// Triangle number `t` of a flat list of triangle corners.
pub open spec fn triangle<T>(corners: Seq<T>, t: int) -> (T, T, T) {
    (corners[3 * t], corners[3 * t + 1], corners[3 * t + 2])
}

/// The triangles of a fan around `center`: triangle `i` joins the center,
/// ring entry `i + 1` (wrapping around) and ring entry `i`.
pub fn triangle_fan<T: Copy>(center: T, ring: &Vec<T>) -> (corners: Vec<T>)
    requires
        3 * ring.len() <= usize::MAX,
    ensures
        corners.len() == 3 * ring.len(),
        forall|i: int| 0 <= i < ring.len() ==> #[trigger] triangle(corners@, i) == (
            center,
            ring@[(i + 1) % (ring.len() as int)],
            ring@[i],
        ),
{
    let n = ring.len();
    let mut corners: Vec<T> = Vec::new();
    for i in 0..n
        invariant
            n == ring.len(),
            corners.len() == 3 * i,
            forall|k: int| 0 <= k < i ==> #[trigger] triangle(corners@, k) == (
                center,
                ring@[(k + 1) % (n as int)],
                ring@[k],
            ),
    {
        let ghost before = corners@;
        corners.push(center);
        corners.push(ring[(i + 1) % n]);
        corners.push(ring[i]);
        assert forall|k: int| 0 <= k < i + 1 implies #[trigger] triangle(corners@, k) == (
            center,
            ring@[(k + 1) % (n as int)],
            ring@[k],
        ) by {
            if k < i {
                assert(triangle(before, k) == triangle(corners@, k));
            }
        }
    }
    corners
}

/// The triangle corners of a mesh made of soft hexagons, one per cell: cell `c`
/// owns the seven vertices from `7c` (its center, then its six corners), and its
/// triangle `i` joins the center, corner `i + 1` (wrapping around) and corner `i`.
pub fn fuzzy_triangles(cell_count: usize) -> (corners: Vec<u16>)
    requires
        7 * cell_count <= u16::MAX,
    ensures
        corners.len() == 18 * cell_count,
        forall|c: int, i: int| 0 <= c < cell_count && 0 <= i < 6 ==> #[trigger] triangle(corners@, 6 * c + i) == (
            (7 * c) as u16,
            (7 * c + 1 + (i + 1) % 6) as u16,
            (7 * c + 1 + i) as u16,
        ),
{
    let mut corners: Vec<u16> = Vec::new();
    let mut vertices_count: u16 = 0;
    for c in 0..cell_count
        invariant
            7 * cell_count <= u16::MAX,
            vertices_count == 7 * c,
            corners.len() == 18 * c,
            forall|d: int, i: int| 0 <= d < c && 0 <= i < 6 ==> #[trigger] triangle(corners@, 6 * d + i) == (
                (7 * d) as u16,
                (7 * d + 1 + (i + 1) % 6) as u16,
                (7 * d + 1 + i) as u16,
            ),
    {
        let center_index = vertices_count;
        vertices_count = vertices_count + 7;
        let ghost done = corners@;
        for i in 0..6u16
            invariant
                7 * cell_count <= u16::MAX,
                0 <= c < cell_count,
                center_index == 7 * c,
                corners.len() == 18 * c + 3 * i,
                corners@.take(18 * c) == done,
                forall|k: int| 0 <= k < i ==> #[trigger] triangle(corners@, 6 * c + k) == (
                    (7 * c) as u16,
                    (7 * c + 1 + (k + 1) % 6) as u16,
                    (7 * c + 1 + k) as u16,
                ),
        {
            let ghost before = corners@;
            corners.push(center_index);
            corners.push(center_index + 1 + (1 + i) % 6);
            corners.push(center_index + 1 + i);
            assert(corners@.take(18 * c) =~= before.take(18 * c));
            assert forall|k: int| 0 <= k < i + 1 implies #[trigger] triangle(corners@, 6 * c + k) == (
                (7 * c) as u16,
                (7 * c + 1 + (k + 1) % 6) as u16,
                (7 * c + 1 + k) as u16,
            ) by {
                if k < i {
                    assert(triangle(before, 6 * c + k) == triangle(corners@, 6 * c + k));
                }
            }
        }
        assert forall|d: int, i: int| 0 <= d < c + 1 && 0 <= i < 6 implies #[trigger] triangle(corners@, 6 * d + i) == (
            (7 * d) as u16,
            (7 * d + 1 + (i + 1) % 6) as u16,
            (7 * d + 1 + i) as u16,
        ) by {
            if d < c {
                let t = 6 * d + i;
                assert(3 * t + 2 < 18 * c) by (nonlinear_arith)
                    requires
                        t == 6 * d + i,
                        0 <= d < c,
                        0 <= i < 6,
                ;
                assert(corners@.take(18 * c)[3 * t] == done[3 * t]);
                assert(corners@.take(18 * c)[3 * t + 1] == done[3 * t + 1]);
                assert(corners@.take(18 * c)[3 * t + 2] == done[3 * t + 2]);
                assert(triangle(done, t) == triangle(corners@, t));
            } else {
                assert(d == c);
            }
        }
    }
    corners
}

/// A vertex of the smooth mountain mesh: the center of cell `c`, or corner `j`
/// of cell `c` (a corner shared by several cells is made once, by the first
/// cell that reaches it).
#[derive(Debug, Clone, Copy, PartialEq, Eq, Structural)]
pub enum SmoothVertex {
    Center(usize),
    Corner(usize, usize),
}

/// The vertices and the triangle corners of the smooth mountain mesh.
#[derive(Debug, Clone)]
pub struct SmoothLayout {
    pub vertices: Vec<SmoothVertex>,
    pub triangles: Vec<u16>,
}

/// Corner `j` of cell `c` comes before slot `(c, m)`: in an earlier cell, or
/// earlier in cell `c`.
pub open spec fn slot_before(c: int, m: int, d: int, k: int) -> bool {
    (0 <= d < c && 0 <= k < 6) || (d == c && 0 <= k < m)
}

/// Some corner before slot `(c, m)` has the key `key`.
pub open spec fn key_before(cells: Seq<[(u8, i32, i32); 6]>, c: int, m: int, key: (u8, i32, i32)) -> bool {
    exists|d: int, k: int| slot_before(c, m, d, k) && #[trigger] cells[d][k] == key
}

/// The corner vertices that cell `c` adds for its first `m` corners: those
/// whose key no earlier corner had.
pub open spec fn new_corners(cells: Seq<[(u8, i32, i32); 6]>, c: int, m: int) -> Seq<SmoothVertex>
    decreases m,
{
    if m <= 0 {
        Seq::empty()
    } else if key_before(cells, c, m - 1, cells[c][m - 1]) {
        new_corners(cells, c, m - 1)
    } else {
        new_corners(cells, c, m - 1).push(SmoothVertex::Corner(c as usize, (m - 1) as usize))
    }
}

/// The vertices of the smooth mesh of the first `n` cells: for each cell its
/// center, then its corners not made before, in corner order.
pub open spec fn smooth_vertices(cells: Seq<[(u8, i32, i32); 6]>, n: int) -> Seq<SmoothVertex>
    decreases n,
{
    if n <= 0 {
        Seq::empty()
    } else {
        smooth_vertices(cells, n - 1).push(SmoothVertex::Center((n - 1) as usize)) + new_corners(
            cells,
            n - 1,
            6,
        )
    }
}

/// `v` is a corner vertex whose key is `key`.
pub open spec fn corner_with_key(cells: Seq<[(u8, i32, i32); 6]>, v: SmoothVertex, key: (u8, i32, i32)) -> bool {
    v matches SmoothVertex::Corner(d, k) && d < cells.len() && k < 6 && cells[d as int][k as int] == key
}

/// Triangle `i` of cell `c` joins the cell's center, its corner `i + 1`
/// (wrapping around) and its corner `i`.
pub open spec fn smooth_triangle(
    cells: Seq<[(u8, i32, i32); 6]>,
    vertices: Seq<SmoothVertex>,
    t: (u16, u16, u16),
    c: int,
    i: int,
) -> bool {
    &&& t.0 < vertices.len() && vertices[t.0 as int] == SmoothVertex::Center(c as usize)
    &&& t.1 < vertices.len() && corner_with_key(cells, vertices[t.1 as int], cells[c][(i + 1) % 6])
    &&& t.2 < vertices.len() && corner_with_key(cells, vertices[t.2 as int], cells[c][i])
}

proof fn lemma_key_before_step(cells: Seq<[(u8, i32, i32); 6]>, c: int, j: int, key: (u8, i32, i32))
    requires
        0 <= j < 6,
    ensures
        key_before(cells, c, j + 1, key) <==> (key_before(cells, c, j, key) || cells[c][j] == key),
{
    if key_before(cells, c, j + 1, key) {
        let (d, k) = choose|d: int, k: int| slot_before(c, j + 1, d, k) && #[trigger] cells[d][k] == key;
        if !(d == c && k == j) {
            assert(slot_before(c, j, d, k));
        }
    }
    if cells[c][j] == key {
        assert(slot_before(c, j + 1, c, j));
    }
    if key_before(cells, c, j, key) {
        let (d, k) = choose|d: int, k: int| slot_before(c, j, d, k) && #[trigger] cells[d][k] == key;
        assert(slot_before(c, j + 1, d, k));
    }
}

proof fn lemma_key_before_next_cell(cells: Seq<[(u8, i32, i32); 6]>, c: int, key: (u8, i32, i32))
    requires
        0 <= c,
    ensures
        key_before(cells, c, 6, key) <==> key_before(cells, c + 1, 0, key),
{
    if key_before(cells, c, 6, key) {
        let (d, k) = choose|d: int, k: int| slot_before(c, 6, d, k) && #[trigger] cells[d][k] == key;
        assert(slot_before(c + 1, 0, d, k));
    }
    if key_before(cells, c + 1, 0, key) {
        let (d, k) = choose|d: int, k: int| slot_before(c + 1, 0, d, k) && #[trigger] cells[d][k] == key;
        assert(slot_before(c, 6, d, k));
    }
}

proof fn lemma_new_corners_grow(cells: Seq<[(u8, i32, i32); 6]>, c: int, m1: int, m2: int)
    requires
        0 <= m1 <= m2,
    ensures
        new_corners(cells, c, m1).len() <= new_corners(cells, c, m2).len(),
    decreases m2,
{
    if m1 < m2 {
        lemma_new_corners_grow(cells, c, m1, m2 - 1);
    }
}

proof fn lemma_smooth_vertices_grow(cells: Seq<[(u8, i32, i32); 6]>, c: int, n: int)
    requires
        0 <= c < n,
    ensures
        smooth_vertices(cells, c).len() + 1 + new_corners(cells, c, 6).len()
            <= smooth_vertices(cells, n).len(),
    decreases n,
{
    if c < n - 1 {
        lemma_smooth_vertices_grow(cells, c, n - 1);
    }
}

/// Corner `v` is the first corner in slot order with its key, among the
/// first `n` cells.
pub open spec fn first_with_key(cells: Seq<[(u8, i32, i32); 6]>, v: SmoothVertex, n: int) -> bool {
    match v {
        SmoothVertex::Corner(d, k) => d < n && k < 6 && !key_before(cells, d as int, k as int, cells[d as int][k as int]),
        SmoothVertex::Center(d) => d < n,
    }
}

/// Vertex `v` comes strictly before vertex `w` in slot order (corners only).
pub open spec fn corner_order(v: SmoothVertex, w: SmoothVertex) -> bool {
    match (v, w) {
        (SmoothVertex::Corner(d1, k1), SmoothVertex::Corner(d2, k2)) => d1 < d2 || (d1 == d2 && k1 < k2),
        _ => true,
    }
}

proof fn lemma_new_corners_shape(cells: Seq<[(u8, i32, i32); 6]>, c: int, m: int)
    requires
        0 <= c < usize::MAX,
        0 <= m <= 6,
    ensures
        forall|i: int| 0 <= i < new_corners(cells, c, m).len() ==> ((#[trigger] new_corners(cells, c, m)[i]) matches SmoothVertex::Corner(d, k)
            && d == c && k < m && !key_before(cells, c, k as int, cells[c][k as int])),
        forall|i: int, j: int| 0 <= i < j < new_corners(cells, c, m).len() ==> corner_order(
            #[trigger] new_corners(cells, c, m)[i],
            #[trigger] new_corners(cells, c, m)[j],
        ),
    decreases m,
{
    if m > 0 {
        lemma_new_corners_shape(cells, c, m - 1);
    }
}

proof fn lemma_smooth_vertices_shape(cells: Seq<[(u8, i32, i32); 6]>, n: int)
    requires
        0 <= n <= usize::MAX,
    ensures
        forall|i: int| 0 <= i < smooth_vertices(cells, n).len() ==> first_with_key(cells, #[trigger] smooth_vertices(cells, n)[i], n),
        forall|i: int, j: int| 0 <= i < j < smooth_vertices(cells, n).len() ==> corner_order(
            #[trigger] smooth_vertices(cells, n)[i],
            #[trigger] smooth_vertices(cells, n)[j],
        ),
    decreases n,
{
    if n > 0 {
        let c = n - 1;
        lemma_smooth_vertices_shape(cells, c);
        lemma_new_corners_shape(cells, c, 6);
        let before = smooth_vertices(cells, c).push(SmoothVertex::Center(c as usize));
        let added = new_corners(cells, c, 6);
        let all = smooth_vertices(cells, n);
        assert(all == before + added);
        assert forall|i: int| 0 <= i < all.len() implies first_with_key(cells, #[trigger] all[i], n) by {
            if i < before.len() - 1 {
                assert(all[i] == smooth_vertices(cells, c)[i]);
            } else if i >= before.len() {
                assert(all[i] == added[i - before.len()]);
            }
        }
        assert forall|i: int, j: int| 0 <= i < j < all.len() implies corner_order(#[trigger] all[i], #[trigger] all[j]) by {
            if j < before.len() - 1 {
                assert(all[i] == smooth_vertices(cells, c)[i]);
                assert(all[j] == smooth_vertices(cells, c)[j]);
            } else if i < before.len() - 1 && j >= before.len() {
                assert(all[i] == smooth_vertices(cells, c)[i]);
                assert(first_with_key(cells, smooth_vertices(cells, c)[i], c));
                assert(all[j] == added[j - before.len()]);
            } else if i >= before.len() {
                assert(all[i] == added[i - before.len()]);
                assert(all[j] == added[j - before.len()]);
            }
        }
    }
}

/// Two corner vertices stand for different corner points (centers always differ).
pub open spec fn different_keys(cells: Seq<[(u8, i32, i32); 6]>, v: SmoothVertex, w: SmoothVertex) -> bool {
    match (v, w) {
        (SmoothVertex::Corner(d1, k1), SmoothVertex::Corner(d2, k2)) => cells[d1 as int][k1 as int] != cells[d2 as int][k2 as int],
        _ => true,
    }
}

/// A corner point shared by several cells becomes a single vertex: no two
/// corner vertices of the smooth mesh have the same key.
pub proof fn lemma_shared_corners_made_once(cells: Seq<[(u8, i32, i32); 6]>, n: int)
    requires
        0 <= n <= cells.len(),
        n <= usize::MAX,
    ensures
        forall|i: int, j: int| 0 <= i < j < smooth_vertices(cells, n).len() ==> different_keys(
            cells,
            #[trigger] smooth_vertices(cells, n)[i],
            #[trigger] smooth_vertices(cells, n)[j],
        ),
{
    lemma_smooth_vertices_shape(cells, n);
    let all = smooth_vertices(cells, n);
    assert forall|i: int, j: int| 0 <= i < j < all.len() implies different_keys(cells, #[trigger] all[i], #[trigger] all[j]) by {
        if let SmoothVertex::Corner(d1, k1) = all[i] {
            if let SmoothVertex::Corner(d2, k2) = all[j] {
                assert(first_with_key(cells, all[j], n));
                assert(corner_order(all[i], all[j]));
                assert(slot_before(d2 as int, k2 as int, d1 as int, k1 as int));
            }
        }
    }
}

/// Lays out the smooth mountain mesh. Each cell lists the keys of its six
/// corners, a key naming a corner point that neighboring cells share. Returns
/// `None` when the mesh would need more than 65535 vertices, the most that
/// 16-bit triangle indices reach.
pub fn smooth_layout(cells: &Vec<[(u8, i32, i32); 6]>) -> (r: Option<SmoothLayout>)
    ensures
        r is None <==> smooth_vertices(cells@, cells.len() as int).len() > 65535,
        r matches Some(layout) ==> {
            &&& layout.vertices@ == smooth_vertices(cells@, cells.len() as int)
            &&& layout.triangles.len() == 18 * cells.len()
            &&& forall|c: int, i: int| 0 <= c < cells.len() && 0 <= i < 6 ==> smooth_triangle(
                cells@,
                layout.vertices@,
                #[trigger] triangle(layout.triangles@, 6 * c + i),
                c,
                i,
            )
        },
{
    let n = cells.len();
    let mut memo: BTreeMap<(u8, i32, i32), u16> = BTreeMap::new();
    let mut vertices: Vec<SmoothVertex> = Vec::new();
    let mut triangles: Vec<u16> = Vec::new();
    for c in 0..n
        invariant
            n == cells.len(),
            vertices@ == smooth_vertices(cells@, c as int),
            vertices.len() <= 65535,
            forall|key: (u8, i32, i32)| #[trigger] memo@.contains_key(key) <==> key_before(cells@, c as int, 0, key),
            forall|key: (u8, i32, i32)| #[trigger] memo@.contains_key(key) ==> memo@[key] < vertices.len()
                && corner_with_key(cells@, vertices@[memo@[key] as int], key),
            triangles.len() == 18 * c,
            forall|d: int, i: int| 0 <= d < c && 0 <= i < 6 ==> smooth_triangle(
                cells@,
                vertices@,
                #[trigger] triangle(triangles@, 6 * d + i),
                d,
                i,
            ),
    {
        if vertices.len() >= 65535 {
            proof { lemma_smooth_vertices_grow(cells@, c as int, n as int); }
            return None;
        }
        let center_index = vertices.len() as u16;
        vertices.push(SmoothVertex::Center(c));
        let mut ring: Vec<u16> = Vec::new();
        for j in 0..6usize
            invariant
                n == cells.len(),
                0 <= c < n,
                vertices@ == smooth_vertices(cells@, c as int).push(SmoothVertex::Center(c)) + new_corners(cells@, c as int, j as int),
                vertices.len() <= 65535,
                center_index < vertices.len(),
                vertices@[center_index as int] == SmoothVertex::Center(c),
                forall|key: (u8, i32, i32)| #[trigger] memo@.contains_key(key) <==> key_before(cells@, c as int, j as int, key),
                forall|key: (u8, i32, i32)| #[trigger] memo@.contains_key(key) ==> memo@[key] < vertices.len()
                    && corner_with_key(cells@, vertices@[memo@[key] as int], key),
                ring.len() == j,
                forall|k: int| 0 <= k < j ==> ring@[k] < vertices.len()
                    && corner_with_key(cells@, vertices@[#[trigger] ring@[k] as int], cells@[c as int][k]),
                triangles.len() == 18 * c,
                forall|d: int, i: int| 0 <= d < c && 0 <= i < 6 ==> smooth_triangle(
                    cells@,
                    vertices@,
                    #[trigger] triangle(triangles@, 6 * d + i),
                    d,
                    i,
                ),
        {
            let key = cells[c][j];
            let ghost old_vertices = vertices@;
            let ghost old_memo = memo@;
            let ghost old_ring = ring@;
            proof {
                lemma_key_before_step(cells@, c as int, j as int, key);
                assert forall|k: (u8, i32, i32)| key_before(cells@, c as int, j + 1, k)
                    <==> (key_before(cells@, c as int, j as int, k) || key == k) by {
                    lemma_key_before_step(cells@, c as int, j as int, k);
                }
            }
            match memo.get(&key) {
                Some(index) => {
                    ring.push(*index);
                    assert(new_corners(cells@, c as int, j + 1) == new_corners(cells@, c as int, j as int));
                },
                None => {
                    if vertices.len() >= 65535 {
                        proof {
                            lemma_new_corners_grow(cells@, c as int, j + 1, 6);
                            lemma_smooth_vertices_grow(cells@, c as int, n as int);
                        }
                        return None;
                    }
                    let index = vertices.len() as u16;
                    vertices.push(SmoothVertex::Corner(c, j));
                    memo.insert(key, index);
                    ring.push(index);
                    assert(vertices@ == smooth_vertices(cells@, c as int).push(SmoothVertex::Center(c))
                        + new_corners(cells@, c as int, j + 1));
                    assert forall|k: (u8, i32, i32)| #[trigger] memo@.contains_key(k) implies memo@[k] < vertices.len()
                        && corner_with_key(cells@, vertices@[memo@[k] as int], k) by {
                        if k != key {
                            assert(old_memo.contains_key(k));
                            assert(vertices@[memo@[k] as int] == old_vertices[memo@[k] as int]);
                        }
                    }
                },
            }
            assert forall|k: int| 0 <= k < j + 1 implies ring@[k] < vertices.len()
                && corner_with_key(cells@, vertices@[#[trigger] ring@[k] as int], cells@[c as int][k]) by {
                if k < j {
                    assert(ring@[k] == old_ring[k]);
                    assert(vertices@[ring@[k] as int] == old_vertices[ring@[k] as int]);
                }
            }
            assert forall|d: int, i: int| 0 <= d < c && 0 <= i < 6 implies smooth_triangle(
                cells@,
                vertices@,
                #[trigger] triangle(triangles@, 6 * d + i),
                d,
                i,
            ) by {
                let t = triangle(triangles@, 6 * d + i);
                assert(smooth_triangle(cells@, old_vertices, t, d, i));
                assert(vertices@[t.0 as int] == old_vertices[t.0 as int]);
                assert(vertices@[t.1 as int] == old_vertices[t.1 as int]);
                assert(vertices@[t.2 as int] == old_vertices[t.2 as int]);
            }
        }
        assert(vertices@ == smooth_vertices(cells@, c + 1));
        assert forall|k: (u8, i32, i32)| key_before(cells@, c as int, 6, k) <==> key_before(cells@, c + 1, 0, k) by {
            lemma_key_before_next_cell(cells@, c as int, k);
        }
        let ghost done = triangles@;
        for i in 0..6usize
            invariant
                n == cells.len(),
                0 <= c < n,
                ring.len() == 6,
                center_index < vertices.len(),
                vertices@[center_index as int] == SmoothVertex::Center(c),
                forall|k: int| 0 <= k < 6 ==> ring@[k] < vertices.len()
                    && corner_with_key(cells@, vertices@[#[trigger] ring@[k] as int], cells@[c as int][k]),
                triangles.len() == 18 * c + 3 * i,
                triangles@.take(18 * c) == done,
                forall|d: int, i: int| 0 <= d < c && 0 <= i < 6 ==> smooth_triangle(
                    cells@,
                    vertices@,
                    #[trigger] triangle(done, 6 * d + i),
                    d,
                    i,
                ),
                forall|k: int| 0 <= k < i ==> smooth_triangle(
                    cells@,
                    vertices@,
                    #[trigger] triangle(triangles@, 6 * c + k),
                    c as int,
                    k,
                ),
        {
            let ghost before = triangles@;
            triangles.push(center_index);
            triangles.push(ring[(i + 1) % 6]);
            triangles.push(ring[i]);
            assert(triangles@.take(18 * c) =~= before.take(18 * c));
            assert forall|k: int| 0 <= k < i + 1 implies smooth_triangle(
                cells@,
                vertices@,
                #[trigger] triangle(triangles@, 6 * c + k),
                c as int,
                k,
            ) by {
                if k < i {
                    assert(triangle(before, 6 * c + k) == triangle(triangles@, 6 * c + k));
                }
            }
        }
        assert forall|d: int, i: int| 0 <= d < c + 1 && 0 <= i < 6 implies smooth_triangle(
            cells@,
            vertices@,
            #[trigger] triangle(triangles@, 6 * d + i),
            d,
            i,
        ) by {
            if d < c {
                let t = 6 * d + i;
                assert(3 * t + 2 < 18 * c) by (nonlinear_arith)
                    requires
                        t == 6 * d + i,
                        0 <= d < c,
                        0 <= i < 6,
                ;
                assert(triangles@.take(18 * c)[3 * t] == done[3 * t]);
                assert(triangles@.take(18 * c)[3 * t + 1] == done[3 * t + 1]);
                assert(triangles@.take(18 * c)[3 * t + 2] == done[3 * t + 2]);
                assert(triangle(done, t) == triangle(triangles@, t));
            }
        }
    }
    Some(SmoothLayout { vertices, triangles })
}

/// The heights averaged into corner slot `slot` of a cell's outline, as a sum
/// of heights and their count. The twelve slots go round the cell: an even
/// slot `2i` is the midpoint of the edge towards neighbor `i`, averaging the
/// cell and that neighbor; an odd slot `2i + 1` is the corner between neighbors
/// `i` and `i + 1` (wrapping around), averaging the cell with whichever of them
/// exist. Without `fill_missing` a slot that has no neighbor to average with is
/// left out (`None`); with it, a missing edge neighbor counts as the cell's
/// own height and a lone corner averages the cell alone.
pub open spec fn corner_average(
    heights: Map<(i32, i32), u16>,
    pos: Hex,
    slot: int,
    fill_missing: bool,
) -> Option<(int, int)> {
    let center = heights[pos.key()] as int;
    if slot % 2 == 0 {
        let n = pos.neighbor(slot / 2).key();
        if heights.contains_key(n) {
            Some((center + heights[n], 2))
        } else if fill_missing {
            Some((center + center, 2))
        } else {
            None
        }
    } else {
        let a = pos.neighbor(slot / 2).key();
        let b = pos.neighbor((slot / 2 + 1) % 6).key();
        let sum = center + (if heights.contains_key(a) { heights[a] as int } else { 0 }) + (
        if heights.contains_key(b) {
            heights[b] as int
        } else {
            0
        });
        let count = 1 + (if heights.contains_key(a) { 1int } else { 0 }) + (
        if heights.contains_key(b) {
            1int
        } else {
            0
        });
        if count <= 1 && !fill_missing {
            None
        } else {
            Some((sum, count))
        }
    }
}

/// An edge slot averages the cell with its own neighbor across that edge: slot
/// `2i` is there exactly when neighbor `i` of `pos` has a height (or when
/// missing neighbors are filled), with the sum of the two heights over 2, and
/// the cell's own height stands in only for a missing neighbor.
pub proof fn lemma_edge_slot(heights: Map<(i32, i32), u16>, pos: Hex, i: int, fill_missing: bool)
    requires
        0 <= i < 6,
        heights.contains_key(pos.key()),
    ensures
        heights.contains_key(pos.neighbor(i).key()) ==> corner_average(heights, pos, 2 * i, fill_missing)
            == Some((heights[pos.key()] + heights[pos.neighbor(i).key()], 2int)),
        !heights.contains_key(pos.neighbor(i).key()) ==> corner_average(heights, pos, 2 * i, fill_missing)
            == (if fill_missing { Some((2 * heights[pos.key()], 2int)) } else { None }),
{
    assert((2 * i) / 2 == i);
    assert((2 * i) % 2 == 0);
}

/// A corner slot `2i + 1` averages the cell with those of its neighbors `i` and
/// `i + 1` (wrapping around) that have heights, whatever their heights are; it
/// is left out (unless missing neighbors are filled) exactly when neither has one.
pub proof fn lemma_corner_slot(heights: Map<(i32, i32), u16>, pos: Hex, i: int, fill_missing: bool)
    requires
        0 <= i < 6,
        heights.contains_key(pos.key()),
    ensures
        ({
            let a = pos.neighbor(i).key();
            let b = pos.neighbor((i + 1) % 6).key();
            let r = corner_average(heights, pos, 2 * i + 1, fill_missing);
            &&& (r is Some <==> (fill_missing || heights.contains_key(a) || heights.contains_key(b)))
            &&& (heights.contains_key(a) && heights.contains_key(b)) ==> r == Some(
                (heights[pos.key()] + heights[a] + heights[b], 3int),
            )
            &&& (heights.contains_key(a) && !heights.contains_key(b)) ==> r == Some(
                (heights[pos.key()] + heights[a], 2int),
            )
            &&& (!heights.contains_key(a) && heights.contains_key(b)) ==> r == Some(
                (heights[pos.key()] + heights[b], 2int),
            )
            &&& (fill_missing && !heights.contains_key(a) && !heights.contains_key(b)) ==> r == Some(
                (heights[pos.key()] as int, 1int),
            )
        }),
{
    assert((2 * i + 1) / 2 == i);
    assert((2 * i + 1) % 2 == 1);
}

/// Corner samples depend only on the heights of the cell and of its own six
/// neighbors: two cells anywhere on two maps that agree there (a cell and the
/// same cell shifted, in particular) get the same samples.
pub proof fn lemma_corner_locality(
    h1: Map<(i32, i32), u16>,
    p1: Hex,
    h2: Map<(i32, i32), u16>,
    p2: Hex,
    slot: int,
    fill_missing: bool,
)
    requires
        0 <= slot < 12,
        h1.contains_key(p1.key()),
        h2.contains_key(p2.key()),
        h1[p1.key()] == h2[p2.key()],
        forall|i: int| 0 <= i < 6 ==> (h1.contains_key(#[trigger] p1.neighbor(i).key())
            <==> h2.contains_key(p2.neighbor(i).key())),
        forall|i: int| 0 <= i < 6 && h1.contains_key(#[trigger] p1.neighbor(i).key())
            ==> h1[p1.neighbor(i).key()] == h2[p2.neighbor(i).key()],
    ensures
        corner_average(h1, p1, slot, fill_missing) == corner_average(h2, p2, slot, fill_missing),
{
    let i = slot / 2;
    let j = (slot / 2 + 1) % 6;
    assert(0 <= i < 6 && 0 <= j < 6);
    assert(h1.contains_key(p1.neighbor(i).key()) <==> h2.contains_key(p2.neighbor(i).key()));
    assert(h1.contains_key(p1.neighbor(j).key()) <==> h2.contains_key(p2.neighbor(j).key()));
}

/// Whether a slot is there depends only on which cells have heights, never on
/// the heights themselves (a neighbor at height 0 counts like any other), and
/// the number of heights averaged does too.
pub proof fn lemma_corner_presence_by_cells(
    h1: Map<(i32, i32), u16>,
    h2: Map<(i32, i32), u16>,
    pos: Hex,
    slot: int,
    fill_missing: bool,
)
    requires
        0 <= slot < 12,
        h1.dom() == h2.dom(),
        h1.contains_key(pos.key()),
    ensures
        corner_average(h1, pos, slot, fill_missing) is Some <==> corner_average(h2, pos, slot, fill_missing) is Some,
        corner_average(h1, pos, slot, fill_missing) matches Some(a1) ==> corner_average(h2, pos, slot, fill_missing) matches Some(a2)
            && a1.1 == a2.1,
{
    let i = slot / 2;
    let j = (slot / 2 + 1) % 6;
    assert(h1.contains_key(pos.neighbor(i).key()) <==> h2.contains_key(pos.neighbor(i).key()));
    assert(h1.contains_key(pos.neighbor(j).key()) <==> h2.contains_key(pos.neighbor(j).key()));
}

/// Filling missing neighbors only adds slots that would be left out: every
/// slot that is there without filling is the same with filling.
pub proof fn lemma_fill_only_missing(heights: Map<(i32, i32), u16>, pos: Hex, slot: int)
    requires
        0 <= slot < 12,
        heights.contains_key(pos.key()),
    ensures
        corner_average(heights, pos, slot, true) is Some,
        corner_average(heights, pos, slot, false) is Some ==> corner_average(heights, pos, slot, true)
            == corner_average(heights, pos, slot, false),
{
}

/// The height of a corner vertex of a cell mesh, as an average
/// `height_sum / height_count` of whole heights, and its slot round the cell.
#[derive(Debug, Clone, Copy, PartialEq, Eq, Structural)]
pub struct CornerSample {
    pub slot: u8,
    pub height_sum: u32,
    pub height_count: u32,
}

impl CornerSample {
    /// This sample is the one for `slot` with the given average.
    pub open spec fn is(self, slot: int, average: (int, int)) -> bool {
        self.slot == slot && self.height_sum == average.0 && self.height_count == average.1
    }
}

/// The samples of the first `slots` slots that are not left out, in slot order.
pub open spec fn present_corners(heights: Map<(i32, i32), u16>, pos: Hex, slots: int) -> Seq<(int, (int, int))>
    decreases slots,
{
    if slots <= 0 {
        Seq::empty()
    } else {
        let before = present_corners(heights, pos, slots - 1);
        match corner_average(heights, pos, slots - 1, false) {
            Some(a) => before.push((slots - 1, a)),
            None => before,
        }
    }
}

/// The sample for slot `slot`; `None` when it is left out.
fn corner_sample(
    heights: &BTreeMap<(i32, i32), u16>,
    pos: Hex,
    center: u16,
    neighbors: &[Hex; 6],
    slot: u8,
    fill_missing: bool,
) -> (r: Option<CornerSample>)
    requires
        slot < 12,
        pos.has_neighbors(),
        heights@.contains_key(pos.key()),
        center == heights@[pos.key()],
        forall|i: int| 0 <= i < 6 ==> #[trigger] neighbors[i] == pos.neighbor(i),
    ensures
        match corner_average(heights@, pos, slot as int, fill_missing) {
            Some(a) => r matches Some(s) && s.is(slot as int, a),
            None => r is None,
        },
{
    let edge = (slot / 2) as usize;
    if slot % 2 == 0 {
        let n = neighbors[edge];
        match heights.get(&n.to_key()) {
            Some(h) => Some(CornerSample { slot, height_sum: center as u32 + *h as u32, height_count: 2 }),
            None => if fill_missing {
                Some(CornerSample { slot, height_sum: center as u32 + center as u32, height_count: 2 })
            } else {
                None
            },
        }
    } else {
        let mut sum: u32 = center as u32;
        let mut count: u32 = 1;
        match heights.get(&neighbors[edge].to_key()) {
            Some(h) => {
                sum = sum + *h as u32;
                count = count + 1;
            },
            None => {},
        }
        match heights.get(&neighbors[(edge + 1) % 6].to_key()) {
            Some(h) => {
                sum = sum + *h as u32;
                count = count + 1;
            },
            None => {},
        }
        if count <= 1 && !fill_missing {
            None
        } else {
            Some(CornerSample { slot, height_sum: sum, height_count: count })
        }
    }
}

/// The corner vertices of the triangle mesh of the cell at `pos`, round the
/// cell in slot order, leaving out the slots with no neighbor to average with.
pub fn cell_triangle_corners(heights: &BTreeMap<(i32, i32), u16>, pos: Hex) -> (corners: Vec<CornerSample>)
    requires
        pos.has_neighbors(),
        heights@.contains_key(pos.key()),
    ensures
        corners.len() == present_corners(heights@, pos, 12).len(),
        forall|i: int| 0 <= i < corners.len() ==> #[trigger] corners@[i].is(
            present_corners(heights@, pos, 12)[i].0,
            present_corners(heights@, pos, 12)[i].1,
        ),
{
    let center = *heights.get(&pos.to_key()).unwrap();
    let neighbors = pos.all_neighbors();
    let mut corners: Vec<CornerSample> = Vec::new();
    let mut slot: u8 = 0;
    while slot < 12
        invariant
            slot <= 12,
            pos.has_neighbors(),
            heights@.contains_key(pos.key()),
            center == heights@[pos.key()],
            forall|i: int| 0 <= i < 6 ==> #[trigger] neighbors[i] == pos.neighbor(i),
            corners.len() == present_corners(heights@, pos, slot as int).len(),
            forall|i: int| 0 <= i < corners.len() ==> #[trigger] corners@[i].is(
                present_corners(heights@, pos, slot as int)[i].0,
                present_corners(heights@, pos, slot as int)[i].1,
            ),
        decreases 12 - slot,
    {
        let ghost before = present_corners(heights@, pos, slot as int);
        let ghost after = present_corners(heights@, pos, slot + 1);
        let ghost old_corners = corners@;
        match corner_sample(heights, pos, center, &neighbors, slot, false) {
            Some(s) => {
                corners.push(s);
                assert(after == before.push((slot as int, corner_average(heights@, pos, slot as int, false)->0)));
                assert forall|i: int| 0 <= i < corners.len() implies #[trigger] corners@[i].is(after[i].0, after[i].1) by {
                    if i < old_corners.len() {
                        assert(corners@[i] == old_corners[i]);
                    }
                }
            },
            None => {
                assert(after == before);
            },
        }
        slot = slot + 1;
    }
    corners
}

/// The corner vertices of the smooth triangle mesh of the cell at `pos`: all
/// twelve slots in order, a missing neighbor counting as the cell itself.
pub fn cell_smooth_corners(heights: &BTreeMap<(i32, i32), u16>, pos: Hex) -> (corners: Vec<CornerSample>)
    requires
        pos.has_neighbors(),
        heights@.contains_key(pos.key()),
    ensures
        corners.len() == 12,
        forall|i: int| 0 <= i < 12 ==> #[trigger] corners@[i].is(i, corner_average(heights@, pos, i, true)->0),
{
    let center = *heights.get(&pos.to_key()).unwrap();
    let neighbors = pos.all_neighbors();
    let mut corners: Vec<CornerSample> = Vec::new();
    for slot in 0..12u8
        invariant
            pos.has_neighbors(),
            heights@.contains_key(pos.key()),
            center == heights@[pos.key()],
            forall|i: int| 0 <= i < 6 ==> #[trigger] neighbors[i] == pos.neighbor(i),
            corners.len() == slot,
            forall|i: int| 0 <= i < slot ==> #[trigger] corners@[i].is(i, corner_average(heights@, pos, i, true)->0),
    {
        let s = corner_sample(heights, pos, center, &neighbors, slot, true);
        corners.push(s.unwrap());
    }
    corners
}

} // verus!
