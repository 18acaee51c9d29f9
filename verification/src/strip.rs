//! Turning a triangle list into one triangle strip.
use std::collections::HashMap;
use vstd::prelude::*;

verus! {

broadcast use vstd::std_specs::hash::group_hash_axioms;

/// The edge between `a` and `b` without its direction: the smaller vertex first.
pub open spec fn edge_of(a: u32, b: u32) -> (u32, u32) {
    if a <= b {
        (a, b)
    } else {
        (b, a)
    }
}

/// Vertex `k` of triangle `t` of the list `ix`.
pub open spec fn corner(ix: Seq<u32>, t: int, k: int) -> u32 {
    ix[3 * t + k]
}

/// One entry `t` for each edge of triangle `t` that is `p`, in the order
/// (first, second), (second, third), (third, first).
pub open spec fn edge_hits(ix: Seq<u32>, t: int, p: (u32, u32)) -> Seq<usize> {
    let a = corner(ix, t, 0);
    let b = corner(ix, t, 1);
    let c = corner(ix, t, 2);
    let one = seq![t as usize];
    (if edge_of(a, b) == p { one } else { Seq::empty() }) + (if edge_of(b, c) == p { one } else { Seq::empty() }) + (
    if edge_of(c, a) == p {
        one
    } else {
        Seq::empty()
    })
}

/// The triangles among the first `m` of `ix` that have the edge `p`, in
/// order, once for each of their edges that is `p`.
pub open spec fn edge_tris(ix: Seq<u32>, p: (u32, u32), m: nat) -> Seq<usize>
    decreases m,
{
    if m == 0 {
        Seq::empty()
    } else {
        edge_tris(ix, p, (m - 1) as nat) + edge_hits(ix, m - 1, p)
    }
}

/// The first triangle of `list`, from position `j` on, that is not yet in a strip.
pub open spec fn first_unvisited(list: Seq<usize>, visited: Seq<bool>, j: int) -> Option<usize>
    decreases list.len() - j,
{
    if j < 0 || j >= list.len() {
        None
    } else if !visited[list[j] as int] {
        Some(list[j])
    } else {
        first_unvisited(list, visited, j + 1)
    }
}

/// The first of `a`, `b`, `c` that is not an end of the edge `e`.
pub open spec fn third_vertex(a: u32, b: u32, c: u32, e: (u32, u32)) -> Option<u32> {
    if a != e.0 && a != e.1 {
        Some(a)
    } else if b != e.0 && b != e.1 {
        Some(b)
    } else if c != e.0 && c != e.1 {
        Some(c)
    } else {
        None
    }
}

/// How many triangles are not yet in a strip.
pub open spec fn count_unvisited(v: Seq<bool>) -> nat
    decreases v.len(),
{
    if v.len() == 0 {
        0
    } else {
        count_unvisited(v.drop_last()) + if v.last() {
            0nat
        } else {
            1nat
        }
    }
}

/// Putting one more triangle in a strip leaves one fewer outside.
pub proof fn lemma_count_unvisited_mark(v: Seq<bool>, t: int)
    requires
        0 <= t < v.len(),
        !v[t],
    ensures
        count_unvisited(v.update(t, true)) + 1 == count_unvisited(v),
    decreases v.len(),
{
    if t == v.len() - 1 {
        assert(v.update(t, true).drop_last() =~= v.drop_last());
    } else {
        assert(v.update(t, true).drop_last() =~= v.drop_last().update(t, true));
        lemma_count_unvisited_mark(v.drop_last(), t);
    }
}

/// `first_unvisited` only gives triangles of the list that are not yet in a strip.
pub proof fn lemma_first_unvisited(list: Seq<usize>, visited: Seq<bool>, j: int)
    ensures
        first_unvisited(list, visited, j) matches Some(t) ==> !visited[t as int] && exists|k: int|
            0 <= k < list.len() && #[trigger] list[k] == t,
    decreases list.len() - j,
{
    if 0 <= j < list.len() && visited[list[j] as int] {
        lemma_first_unvisited(list, visited, j + 1);
    }
}

/// Continues a strip whose last two vertices are `last`: while some triangle
/// that is not yet in a strip shares that edge, the first such triangle (in
/// list order) joins the strip with its vertex off the edge. `None` when a
/// joining triangle has no vertex off the edge.
pub open spec fn walk(ix: Seq<u32>, visited: Seq<bool>, result: Seq<u32>, last: (u32, u32)) -> Option<(Seq<bool>, Seq<u32>)>
    decreases count_unvisited(visited),
{
    let n = (ix.len() / 3) as nat;
    match first_unvisited(edge_tris(ix, edge_of(last.0, last.1), n), visited, 0) {
        None => Some((visited, result)),
        Some(t) => if t < visited.len() {
            proof {
                lemma_first_unvisited(edge_tris(ix, edge_of(last.0, last.1), n), visited, 0);
                lemma_count_unvisited_mark(visited, t as int);
            }
            match third_vertex(corner(ix, t as int, 0), corner(ix, t as int, 1), corner(ix, t as int, 2), last) {
                None => None,
                Some(v) => walk(ix, visited.update(t as int, true), result.push(v), (last.1, v)),
            }
        } else {
            None
        },
    }
}

/// What joins a new strip to the strip so far: the last vertex repeated, then
/// the new first vertex, once more where that keeps the winding order.
pub open spec fn bridge(result: Seq<u32>, a: u32) -> Seq<u32> {
    if result.len() == 0 {
        result
    } else {
        let r = result.push(result.last()).push(a);
        if r.len() % 2 == 1 {
            r.push(a)
        } else {
            r
        }
    }
}

/// The strip built from triangle `start` on, with `visited` marking the
/// triangles already in it and `result` the vertices so far.
pub open spec fn strips_from(ix: Seq<u32>, visited: Seq<bool>, result: Seq<u32>, start: nat) -> Option<Seq<u32>>
    decreases ix.len() / 3 - start,
{
    if start >= ix.len() / 3 {
        Some(result)
    } else if visited[start as int] {
        strips_from(ix, visited, result, start + 1)
    } else {
        let a = corner(ix, start as int, 0);
        let b = corner(ix, start as int, 1);
        let c = corner(ix, start as int, 2);
        match walk(ix, visited.update(start as int, true), bridge(result, a) + seq![a, b, c], (b, c)) {
            None => None,
            Some((v, r)) => strips_from(ix, v, r, start + 1),
        }
    }
}

/// The single triangle strip of the triangle list `ix`; `None` where a
/// triangle that continues a strip has no vertex off the shared edge.
pub open spec fn triangle_strip(ix: Seq<u32>) -> Option<Seq<u32>> {
    strips_from(ix, Seq::new((ix.len() / 3) as nat, |i: int| false), Seq::empty(), 0)
}

/// The number under which the map of edges files the edge `p`.
pub open spec fn edge_code(p: (u32, u32)) -> u64 {
    ((p.0 as u64) << 32u64) | (p.1 as u64)
}

proof fn lemma_edge_code_injective(a1: u32, b1: u32, a2: u32, b2: u32)
    by (bit_vector)
    requires
        ((a1 as u64) << 32u64) | (b1 as u64) == ((a2 as u64) << 32u64) | (b2 as u64),
    ensures
        a1 == a2,
        b1 == b2,
{
}

/// The triangles filed under edge `p` in `m`.
pub open spec fn listed(m: Map<u64, Vec<usize>>, p: (u32, u32)) -> Seq<usize> {
    if m.contains_key(edge_code(p)) {
        m[edge_code(p)]@
    } else {
        Seq::empty()
    }
}

/// The map key of the edge between `a` and `b`.
fn edge_key(a: u32, b: u32) -> (k: u64)
    ensures
        k == edge_code(edge_of(a, b)),
{
    let (lo, hi) = if a <= b {
        (a, b)
    } else {
        (b, a)
    };
    ((lo as u64) << 32u64) | (hi as u64)
}

/// Files triangle `t` under the edge between `a` and `b`.
fn add_edge(map: &mut HashMap<u64, Vec<usize>>, a: u32, b: u32, t: usize)
    ensures
        forall|p: (u32, u32)|
            #[trigger] listed(final(map)@, p) == listed(old(map)@, p) + (if edge_of(a, b) == p {
                seq![t]
            } else {
                Seq::empty()
            }),
{
    let key = edge_key(a, b);
    let mut list = match map.remove(&key) {
        Some(l) => l,
        None => Vec::new(),
    };
    list.push(t);
    map.insert(key, list);
    assert forall|p: (u32, u32)|
        #[trigger] listed(map@, p) == listed(old(map)@, p) + (if edge_of(a, b) == p {
            seq![t]
        } else {
            Seq::empty()
        }) by {
        let q = edge_of(a, b);
        if edge_code(p) == edge_code(q) {
            lemma_edge_code_injective(p.0, p.1, q.0, q.1);
        } else {
            assert(p != q);
        }
        assert(listed(map@, p) =~= listed(old(map)@, p) + (if edge_of(a, b) == p {
            seq![t]
        } else {
            Seq::empty()
        }));
    }
}

/// The triangles filed under an edge are among the first `m`.
proof fn lemma_edge_tris_bound(ix: Seq<u32>, p: (u32, u32), m: nat)
    requires
        m <= usize::MAX,
    ensures
        forall|k: int| 0 <= k < edge_tris(ix, p, m).len() ==> #[trigger] edge_tris(ix, p, m)[k] < m,
    decreases m,
{
    if m > 0 {
        lemma_edge_tris_bound(ix, p, (m - 1) as nat);
        let prev = edge_tris(ix, p, (m - 1) as nat);
        let hits = edge_hits(ix, m - 1, p);
        assert forall|k: int| 0 <= k < hits.len() implies #[trigger] hits[k] == m - 1 by {
            let a = corner(ix, m - 1, 0);
            let b = corner(ix, m - 1, 1);
            let c = corner(ix, m - 1, 2);
            let one = seq![(m - 1) as usize];
            let h1: Seq<usize> = if edge_of(a, b) == p { one } else { Seq::empty() };
            let h2: Seq<usize> = if edge_of(b, c) == p { one } else { Seq::empty() };
            let h3: Seq<usize> = if edge_of(c, a) == p { one } else { Seq::empty() };
            assert(hits == h1 + h2 + h3);
        }
        assert forall|k: int| 0 <= k < edge_tris(ix, p, m).len() implies #[trigger] edge_tris(ix, p, m)[k] < m by {
            if k >= prev.len() {
                assert(edge_tris(ix, p, m)[k] == hits[k - prev.len()]);
            } else {
                assert(edge_tris(ix, p, m)[k] == prev[k]);
            }
        }
    }
}

/// The first triangle of `list` that is not yet in a strip.
fn find_unvisited(list: &Vec<usize>, visited: &Vec<bool>) -> (r: Option<usize>)
    requires
        forall|k: int| 0 <= k < list@.len() ==> #[trigger] list@[k] < visited@.len(),
    ensures
        r == first_unvisited(list@, visited@, 0),
{
    let mut j: usize = 0;
    while j < list.len()
        invariant
            j <= list@.len(),
            forall|k: int| 0 <= k < list@.len() ==> #[trigger] list@[k] < visited@.len(),
            first_unvisited(list@, visited@, j as int) == first_unvisited(list@, visited@, 0),
        decreases list@.len() - j,
    {
        let t = list[j];
        if !visited[t] {
            return Some(t);
        }
        j = j + 1;
    }
    None
}

/// The first of `a`, `b`, `c` that is neither `p` nor `q`.
fn find_third_vertex(a: u32, b: u32, c: u32, p: u32, q: u32) -> (r: Option<u32>)
    ensures
        r == third_vertex(a, b, c, (p, q)),
{
    if a != p && a != q {
        Some(a)
    } else if b != p && b != q {
        Some(b)
    } else if c != p && c != q {
        Some(c)
    } else {
        None
    }
}

/// Files every triangle of `indices` under each of its edges.
fn build_edge_map(indices: &[u32], num_tris: usize) -> (m: HashMap<u64, Vec<usize>>)
    requires
        indices@.len() % 3 == 0,
        num_tris == indices@.len() / 3,
    ensures
        forall|p: (u32, u32)| #[trigger] listed(m@, p) == edge_tris(indices@, p, num_tris as nat),
{
    let ghost ix = indices@;
    assert(3 * num_tris == indices.len());
    let mut edge_to_tris: HashMap<u64, Vec<usize>> = HashMap::new();
    let mut tri_id: usize = 0;
    while tri_id < num_tris
        invariant
            ix == indices@,
            num_tris == ix.len() / 3,
            3 * num_tris == indices.len(),
            tri_id <= num_tris,
            forall|p: (u32, u32)| #[trigger] listed(edge_to_tris@, p) == edge_tris(ix, p, tri_id as nat),
        decreases num_tris - tri_id,
    {
        let base = tri_id * 3;
        let a = indices[base];
        let b = indices[base + 1];
        let c = indices[base + 2];
        let ghost m0 = edge_to_tris@;
        add_edge(&mut edge_to_tris, a, b, tri_id);
        let ghost m1 = edge_to_tris@;
        add_edge(&mut edge_to_tris, b, c, tri_id);
        let ghost m2 = edge_to_tris@;
        add_edge(&mut edge_to_tris, c, a, tri_id);
        assert forall|p: (u32, u32)| #[trigger] listed(edge_to_tris@, p) == edge_tris(ix, p, (tri_id + 1) as nat) by {
            let one = seq![tri_id];
            let h1: Seq<usize> = if edge_of(a, b) == p { one } else { Seq::empty() };
            let h2: Seq<usize> = if edge_of(b, c) == p { one } else { Seq::empty() };
            let h3: Seq<usize> = if edge_of(c, a) == p { one } else { Seq::empty() };
            assert(listed(m1, p) == listed(m0, p) + h1);
            assert(listed(m2, p) == listed(m1, p) + h2);
            assert(listed(edge_to_tris@, p) == listed(m2, p) + h3);
            assert(edge_hits(ix, tri_id as int, p) == h1 + h2 + h3);
            assert(edge_tris(ix, p, (tri_id + 1) as nat) == edge_tris(ix, p, tri_id as nat) + edge_hits(ix, tri_id as int, p));
            assert(listed(edge_to_tris@, p) =~= edge_tris(ix, p, (tri_id + 1) as nat));
        }
        tri_id = tri_id + 1;
    }
    edge_to_tris
}

/// `n` triangles, none of them in a strip yet.
fn unvisited(n: usize) -> (v: Vec<bool>)
    ensures
        v@ == Seq::new(n as nat, |k: int| false),
{
    let mut visited: Vec<bool> = Vec::new();
    let mut i: usize = 0;
    while i < n
        invariant
            i <= n,
            visited@ == Seq::new(i as nat, |k: int| false),
        decreases n - i,
    {
        visited.push(false);
        i = i + 1;
        assert(visited@ =~= Seq::new(i as nat, |k: int| false));
    }
    visited
}

/// Joins the triangle list `indices` into one triangle strip: each strip is
/// grown through shared edges as far as it goes, and strips are joined by
/// degenerate triangles.
pub fn triangle_stripper(indices: &[u32]) -> (r: Vec<u32>)
    requires
        indices@.len() % 3 == 0,
        triangle_strip(indices@) is Some,
    ensures
        r@ == triangle_strip(indices@)->Some_0,
{
    try_triangle_stripper(indices).unwrap()
}

/// `triangle_stripper`, or `None` where a triangle that continues a strip has
/// no vertex off the shared edge.
#[verifier::rlimit(30)]
pub fn try_triangle_stripper(indices: &[u32]) -> (r: Option<Vec<u32>>)
    requires
        indices@.len() % 3 == 0,
    ensures
        match r {
            Some(v) => triangle_strip(indices@) == Some(v@),
            None => triangle_strip(indices@) is None,
        },
{
    let ghost ix = indices@;
    let ghost target = triangle_strip(ix);
    let num_tris = indices.len() / 3;
    assert(3 * num_tris == indices.len());
    let mut edge_to_tris = build_edge_map(indices, num_tris);
    let mut visited = unvisited(num_tris);

    let mut result: Vec<u32> = Vec::new();
    let mut start_tri: usize = 0;
    while start_tri < num_tris
        invariant
            ix == indices@,
            num_tris == ix.len() / 3,
            3 * num_tris == indices.len(),
            ix.len() % 3 == 0,
            target == triangle_strip(ix),
            start_tri <= num_tris,
            visited@.len() == num_tris,
            strips_from(ix, visited@, result@, start_tri as nat) == target,
            forall|p: (u32, u32)| #[trigger] listed(edge_to_tris@, p) == edge_tris(ix, p, num_tris as nat),
        decreases num_tris - start_tri,
    {
        if !visited[start_tri] {
            visited.set(start_tri, true);
            let base = start_tri * 3;
            let a = indices[base];
            let b = indices[base + 1];
            let c = indices[base + 2];
            let ghost old_result = result@;

            if !result.is_empty() {
                // join to the strip so far with degenerate triangles
                let last = result[result.len() - 1];
                result.push(last);
                result.push(a);
                if result.len() % 2 != 0 {
                    result.push(a);
                }
            }
            result.push(a);
            result.push(b);
            result.push(c);
            assert(result@ =~= bridge(old_result, a) + seq![a, b, c]);

            let mut last_a = b;
            let mut last_b = c;
            loop
                invariant
                    ix == indices@,
                    num_tris == ix.len() / 3,
                    3 * num_tris == indices.len(),
                    ix.len() % 3 == 0,
                    target == triangle_strip(ix),
                    start_tri < num_tris,
                    visited@.len() == num_tris,
                    forall|p: (u32, u32)| #[trigger] listed(edge_to_tris@, p) == edge_tris(ix, p, num_tris as nat),
                    match walk(ix, visited@, result@, (last_a, last_b)) {
                        None => None,
                        Some((v, r)) => strips_from(ix, v, r, (start_tri + 1) as nat),
                    } == target,
                ensures
                    visited@.len() == num_tris,
                    strips_from(ix, visited@, result@, (start_tri + 1) as nat) == target,
                decreases count_unvisited(visited@),
            {
                let ghost edge = edge_of(last_a, last_b);
                let key = edge_key(last_a, last_b);
                proof {
                    lemma_edge_tris_bound(ix, edge, num_tris as nat);
                }
                let neighbor = match edge_to_tris.get(&key) {
                    Some(tris) => {
                        assert(tris@ == listed(edge_to_tris@, edge));
                        find_unvisited(tris, &visited)
                    },
                    None => {
                        assert(listed(edge_to_tris@, edge) =~= Seq::<usize>::empty());
                        None
                    },
                };
                match neighbor {
                    None => {
                        break;
                    },
                    Some(next_tri) => {
                        proof {
                            lemma_first_unvisited(edge_tris(ix, edge, num_tris as nat), visited@, 0);
                            lemma_count_unvisited_mark(visited@, next_tri as int);
                        }
                        visited.set(next_tri, true);
                        let base = next_tri * 3;
                        let new_vert = match find_third_vertex(indices[base], indices[base + 1], indices[base + 2], last_a, last_b) {
                            Some(v) => v,
                            None => {
                                return None;
                            },
                        };
                        result.push(new_vert);
                        last_a = last_b;
                        last_b = new_vert;
                    },
                }
            }
        }
        start_tri = start_tri + 1;
    }
    Some(result)
}

/// The vertices of triangle `t` of the list `ix`.
pub open spec fn tri_vertices(ix: Seq<u32>, t: int) -> Set<u32> {
    set![corner(ix, t, 0), corner(ix, t, 1), corner(ix, t, 2)]
}

/// The vertices of the triangle of the strip `r` that starts at position `k`.
pub open spec fn window_vertices(r: Seq<u32>, k: int) -> Set<u32> {
    set![r[k], r[k + 1], r[k + 2]]
}

/// Triangle `t` of `ix` appears in the strip `r`: three consecutive vertices
/// of `r` are its vertices.
pub open spec fn appears_in(ix: Seq<u32>, t: int, r: Seq<u32>) -> bool {
    exists|k: int| 0 <= k && k + 2 < r.len() && #[trigger] window_vertices(r, k) == tri_vertices(ix, t)
}

/// Every triangle marked in `visited` appears in `r`.
spec fn placed(ix: Seq<u32>, visited: Seq<bool>, r: Seq<u32>) -> bool {
    forall|t: int| 0 <= t < visited.len() && #[trigger] visited[t] ==> appears_in(ix, t, r)
}

/// `r` starts with `q`.
spec fn extends(r: Seq<u32>, q: Seq<u32>) -> bool {
    q.len() <= r.len() && r.take(q.len() as int) == q
}

/// The triangle of the strip `r` at position `k` repeats a vertex, so it draws nothing.
pub open spec fn degenerate_at(r: Seq<u32>, k: int) -> bool {
    r[k] == r[k + 1] || r[k + 1] == r[k + 2] || r[k] == r[k + 2]
}

/// The triangle of the strip `r` at position `k` draws nothing or is one of
/// the first `n` triangles of `ix`.
pub open spec fn window_sound(ix: Seq<u32>, n: int, r: Seq<u32>, k: int) -> bool {
    degenerate_at(r, k) || exists|t: int| 0 <= t < n && window_vertices(r, k) == #[trigger] tri_vertices(ix, t)
}

/// Every triangle of the strip `r` draws nothing or is one of the first `n`
/// triangles of `ix`.
spec fn windows_sound(ix: Seq<u32>, n: int, r: Seq<u32>) -> bool {
    forall|k: int| 0 <= k && k + 2 < r.len() ==> #[trigger] window_sound(ix, n, r, k)
}

/// Appending to a strip keeps its triangles as they were.
proof fn lemma_sound_extend(ix: Seq<u32>, n: int, q: Seq<u32>, r: Seq<u32>, k: int)
    requires
        window_sound(ix, n, q, k),
        0 <= k,
        k + 2 < q.len(),
        extends(r, q),
    ensures
        window_sound(ix, n, r, k),
{
    assert(r.take(q.len() as int)[k] == r[k]);
    assert(r.take(q.len() as int)[k + 1] == r[k + 1]);
    assert(r.take(q.len() as int)[k + 2] == r[k + 2]);
    assert(window_vertices(r, k) == window_vertices(q, k));
    if !degenerate_at(q, k) {
        let t = choose|t: int| 0 <= t < n && window_vertices(q, k) == #[trigger] tri_vertices(ix, t);
        assert(window_vertices(r, k) == tri_vertices(ix, t));
    }
}

/// A triangle filed under the edge `p` has `p` among its edges.
proof fn lemma_edge_tris_edge(ix: Seq<u32>, p: (u32, u32), m: nat, j: int)
    requires
        m <= usize::MAX,
        0 <= j < edge_tris(ix, p, m).len(),
    ensures
        ({
            let t = edge_tris(ix, p, m)[j] as int;
            &&& 0 <= t < m
            &&& (edge_of(corner(ix, t, 0), corner(ix, t, 1)) == p || edge_of(corner(ix, t, 1), corner(ix, t, 2)) == p
                || edge_of(corner(ix, t, 2), corner(ix, t, 0)) == p)
        }),
    decreases m,
{
    let prev = edge_tris(ix, p, (m - 1) as nat);
    if j < prev.len() {
        lemma_edge_tris_edge(ix, p, (m - 1) as nat, j);
        assert(edge_tris(ix, p, m)[j] == prev[j]);
    } else {
        let t = m - 1;
        let a = corner(ix, t, 0);
        let b = corner(ix, t, 1);
        let c = corner(ix, t, 2);
        let one = seq![t as usize];
        let h1: Seq<usize> = if edge_of(a, b) == p { one } else { Seq::empty() };
        let h2: Seq<usize> = if edge_of(b, c) == p { one } else { Seq::empty() };
        let h3: Seq<usize> = if edge_of(c, a) == p { one } else { Seq::empty() };
        assert(edge_hits(ix, t, p) == h1 + h2 + h3);
        assert(edge_tris(ix, p, m)[j] == edge_hits(ix, t, p)[j - prev.len()]);
    }
}

/// A triangle that shares the edge `(x, y)` and whose vertex off it is `v`
/// has the vertices `x`, `y` and `v`.
proof fn lemma_joined_triangle(a: u32, b: u32, c: u32, x: u32, y: u32, v: u32)
    requires
        edge_of(a, b) == edge_of(x, y) || edge_of(b, c) == edge_of(x, y) || edge_of(c, a) == edge_of(x, y),
        third_vertex(a, b, c, (x, y)) == Some(v),
    ensures
        set![x, y, v] == set![a, b, c],
{
    assert(set![x, y, v] =~= set![a, b, c]);
}

/// Appending to a strip keeps the triangles that appear in it.
proof fn lemma_placed_extend(ix: Seq<u32>, visited: Seq<bool>, q: Seq<u32>, r: Seq<u32>)
    requires
        placed(ix, visited, q),
        extends(r, q),
    ensures
        placed(ix, visited, r),
{
    assert forall|t: int| 0 <= t < visited.len() && #[trigger] visited[t] implies appears_in(ix, t, r) by {
        let k = choose|k: int| 0 <= k && k + 2 < q.len() && #[trigger] window_vertices(q, k) == tri_vertices(ix, t);
        assert(r[k] == q[k] && r[k + 1] == q[k + 1] && r[k + 2] == q[k + 2]) by {
            assert(r.take(q.len() as int)[k] == r[k]);
            assert(r.take(q.len() as int)[k + 1] == r[k + 1]);
            assert(r.take(q.len() as int)[k + 2] == r[k + 2]);
        }
        assert(window_vertices(r, k) == window_vertices(q, k));
    }
}

/// Walking a strip on puts every triangle that joins it into it, and marks
/// nothing as unvisited.
proof fn lemma_walk_places(ix: Seq<u32>, visited: Seq<bool>, result: Seq<u32>, last: (u32, u32))
    requires
        ix.len() <= usize::MAX,
        visited.len() == ix.len() / 3,
        result.len() >= 2,
        last == (result[result.len() - 2], result[result.len() - 1]),
        placed(ix, visited, result),
        windows_sound(ix, visited.len() as int, result),
    ensures
        walk(ix, visited, result, last) matches Some((v, r)) ==> {
            &&& v.len() == visited.len()
            &&& placed(ix, v, r)
            &&& windows_sound(ix, visited.len() as int, r)
            &&& extends(r, result)
            &&& forall|t: int| 0 <= t < visited.len() && #[trigger] visited[t] ==> v[t]
        },
    decreases count_unvisited(visited),
{
    let n = (ix.len() / 3) as nat;
    let e = edge_of(last.0, last.1);
    let list = edge_tris(ix, e, n);
    assert(result.take(result.len() as int) =~= result);
    match first_unvisited(list, visited, 0) {
        None => {},
        Some(t) => {
            if t < visited.len() {
                lemma_first_unvisited(list, visited, 0);
                lemma_count_unvisited_mark(visited, t as int);
                let j = choose|j: int| 0 <= j < list.len() && #[trigger] list[j] == t;
                lemma_edge_tris_edge(ix, e, n, j);
                let a = corner(ix, t as int, 0);
                let b = corner(ix, t as int, 1);
                let c = corner(ix, t as int, 2);
                match third_vertex(a, b, c, last) {
                    None => {},
                    Some(v) => {
                        let visited2 = visited.update(t as int, true);
                        let result2 = result.push(v);
                        lemma_joined_triangle(a, b, c, last.0, last.1, v);
                        assert(result2.take(result.len() as int) =~= result);
                        lemma_placed_extend(ix, visited, result, result2);
                        let k = result.len() - 2;
                        assert(window_vertices(result2, k) == tri_vertices(ix, t as int));
                        assert forall|q: int| 0 <= q && q + 2 < result2.len() implies #[trigger] window_sound(
                            ix,
                            visited.len() as int,
                            result2,
                            q,
                        ) by {
                            if q + 2 < result.len() {
                                lemma_sound_extend(ix, visited.len() as int, result, result2, q);
                            } else {
                                assert(q == k);
                                assert(window_vertices(result2, q) == tri_vertices(ix, t as int));
                            }
                        }
                        assert forall|u: int| 0 <= u < visited2.len() && #[trigger] visited2[u] implies appears_in(
                            ix,
                            u,
                            result2,
                        ) by {
                            if u == t {
                                assert(window_vertices(result2, k) == tri_vertices(ix, u));
                            } else {
                                assert(visited[u]);
                            }
                        }
                        lemma_walk_places(ix, visited2, result2, (last.1, v));
                        if let Some((v3, r3)) = walk(ix, visited2, result2, (last.1, v)) {
                            assert(r3.take(result.len() as int) =~= r3.take(result2.len() as int).take(result.len() as int));
                            assert forall|u: int| 0 <= u < visited.len() && #[trigger] visited[u] implies v3[u] by {
                                assert(visited2[u]);
                            }
                        }
                    },
                }
            }
        },
    }
}

/// Building the strips from triangle `start` on puts every triangle into the
/// strip, given that those before `start` are already in it.
proof fn lemma_strips_place(ix: Seq<u32>, visited: Seq<bool>, result: Seq<u32>, start: nat)
    requires
        ix.len() <= usize::MAX,
        visited.len() == ix.len() / 3,
        placed(ix, visited, result),
        windows_sound(ix, visited.len() as int, result),
        forall|t: int| 0 <= t < start && t < visited.len() ==> #[trigger] visited[t],
    ensures
        strips_from(ix, visited, result, start) matches Some(r) ==> {
            &&& forall|t: int| 0 <= t < ix.len() / 3 ==> #[trigger] appears_in(ix, t, r)
            &&& windows_sound(ix, visited.len() as int, r)
        },
    decreases ix.len() / 3 - start,
{
    let n = ix.len() / 3;
    if start >= n {
        assert forall|t: int| 0 <= t < ix.len() / 3 implies #[trigger] appears_in(ix, t, result) by {
            assert(visited[t]);
        }
    } else if visited[start as int] {
        lemma_strips_place(ix, visited, result, start + 1);
    } else {
        let a = corner(ix, start as int, 0);
        let b = corner(ix, start as int, 1);
        let c = corner(ix, start as int, 2);
        let visited2 = visited.update(start as int, true);
        let pre = bridge(result, a);
        let result2 = pre + seq![a, b, c];
        assert(pre.take(result.len() as int) =~= result);
        assert(result2.take(result.len() as int) =~= result);
        lemma_placed_extend(ix, visited, result, result2);
        let k = pre.len() as int;
        assert(window_vertices(result2, k) =~= tri_vertices(ix, start as int));
        lemma_bridge_even(result, a);
        assert forall|q: int| 0 <= q && q + 2 < result2.len() implies #[trigger] window_sound(
            ix,
            visited.len() as int,
            result2,
            q,
        ) by {
            let l = result.len() as int;
            if q + 2 < l {
                lemma_sound_extend(ix, visited.len() as int, result, result2, q);
            } else if q == k {
                assert(window_vertices(result2, q) == tri_vertices(ix, start as int));
            } else {
                let x = result.last();
                assert(l > 0);
                assert(result2[l] == x);
                assert(result2[l + 1] == a);
                assert(result2[k] == a);
                if q == l - 2 {
                    assert(result2[q + 1] == x);
                } else if q == l - 1 {
                    assert(result2[q] == x);
                } else {
                    assert(result2[k - 1] == a);
                }
            }
        }
        assert forall|u: int| 0 <= u < visited2.len() && #[trigger] visited2[u] implies appears_in(ix, u, result2) by {
            if u == start {
                assert(window_vertices(result2, k) == tri_vertices(ix, u));
            } else {
                assert(visited[u]);
            }
        }
        lemma_walk_places(ix, visited2, result2, (b, c));
        if let Some((v, r)) = walk(ix, visited2, result2, (b, c)) {
            assert forall|t: int| 0 <= t < start + 1 && t < v.len() implies #[trigger] v[t] by {
                assert(visited2[t]);
            }
            lemma_strips_place(ix, v, r, start + 1);
        }
    }
}

/// The strip draws the triangle list: every triangle of the list appears in
/// the strip as three consecutive vertices, and every triangle of the strip
/// either repeats a vertex, and so draws nothing, or is a triangle of the list.
pub proof fn lemma_strip_covers_triangles(ix: Seq<u32>)
    requires
        ix.len() <= usize::MAX,
    ensures
        triangle_strip(ix) matches Some(r) ==> {
            &&& forall|t: int| 0 <= t < ix.len() / 3 ==> #[trigger] appears_in(ix, t, r)
            &&& forall|k: int| 0 <= k && k + 2 < r.len() ==> #[trigger] window_sound(ix, (ix.len() / 3) as int, r, k)
        },
{
    let visited = Seq::new((ix.len() / 3) as nat, |i: int| false);
    lemma_strips_place(ix, visited, Seq::empty(), 0);
}

/// A new strip starts at an even position of the whole strip, so its first
/// triangle keeps its winding; the joint keeps the strip so far as it was.
pub proof fn lemma_bridge_even(result: Seq<u32>, a: u32)
    ensures
        bridge(result, a).len() % 2 == 0,
        bridge(result, a).take(result.len() as int) == result,
{
    assert(bridge(result, a).take(result.len() as int) =~= result);
}

} // verus!
