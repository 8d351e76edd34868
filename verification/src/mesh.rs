//! Triangle meshes, and who is whose neighbour in them.

use crate::sorting::{self, sorted_order, ByKey};
use vstd::prelude::*;

verus! {

/// A triangle mesh. Coordinates and channels are the bits of singles.
#[derive(Debug)]
pub struct TriMesh {
    pub positions: Vec<[u32; 3]>,
    pub normals: Vec<[u32; 3]>,
    pub colors: Vec<[u32; 3]>,
    /// Three vertex numbers for each triangle.
    pub indices: Vec<u32>,
}

impl TriMesh {
    /// The number of vertices.
    pub fn num_vertices(&self) -> (n: usize)
        ensures
            n == self.positions@.len(),
    {
        self.positions.len()
    }

    /// The number of triangles.
    pub fn num_triangles(&self) -> (n: usize)
        ensures
            n == self.indices@.len() / 3,
    {
        self.indices.len() / 3
    }
}

/// Is there a side between the two vertices in triangle `t`?
pub open spec fn side_in(indices: Seq<u32>, t: int, u: int, v: int) -> bool {
    let (a, b, c) = (indices[3 * t] as int, indices[3 * t + 1] as int, indices[3 * t + 2] as int);
    ||| a == u && b == v
    ||| b == u && c == v
    ||| c == u && a == v
    ||| b == u && a == v
    ||| c == u && b == v
    ||| a == u && c == v
}

/// Is there a side between the two vertices among the first `n` triangles?
pub open spec fn linked(indices: Seq<u32>, n: int, u: int, v: int) -> bool {
    exists|t: int| 0 <= t < n && #[trigger] side_in(indices, t, u, v)
}

/// The sides of one more triangle.
proof fn linked_grows(indices: Seq<u32>, n: int, u: int, v: int)
    requires
        n >= 0,
    ensures
        linked(indices, n + 1, u, v) == (linked(indices, n, u, v) || side_in(indices, n, u, v)),
{
    if linked(indices, n, u, v) {
        let t = choose|t: int| 0 <= t < n && #[trigger] side_in(indices, t, u, v);
        assert(0 <= t < n + 1 && side_in(indices, t, u, v));
    }
    if side_in(indices, n, u, v) {
        assert(0 <= n < n + 1 && side_in(indices, n, u, v));
    }
}

fn add_neighbor(lists: &mut Vec<Vec<u32>>, u: u32, v: u32)
    requires
        u < old(lists)@.len(),
    ensures
        final(lists)@.len() == old(lists)@.len(),
        forall|w: int|
            0 <= w < old(lists)@.len() ==> (#[trigger] final(lists)@[w])@ == if w == u {
                old(lists)@[w]@.push(v)
            } else {
                old(lists)@[w]@
            },
{
    let mut list: Vec<u32> = Vec::new();
    std::mem::swap(&mut list, &mut lists[u as usize]);
    list.push(v);
    std::mem::swap(&mut list, &mut lists[u as usize]);
}

/// Does the list hold the vertex?
pub open spec fn has(list: Seq<u32>, v: int) -> bool {
    exists|k: int| 0 <= k < list.len() && #[trigger] list[k] == v
}

proof fn has_pushed(list: Seq<u32>, x: u32, v: int)
    ensures
        has(list.push(x), v) == (has(list, v) || x == v),
{
    let more = list.push(x);
    if has(list, v) {
        let k = choose|k: int| 0 <= k < list.len() && #[trigger] list[k] == v;
        assert(more[k] == v);
    }
    if x == v {
        assert(more[list.len() as int] == v);
    }
    if has(more, v) {
        let k = choose|k: int| 0 <= k < more.len() && #[trigger] more[k] == v;
        if k < list.len() {
            assert(list[k] == v);
        }
    }
}

/// The numbers in ascending order, each once.
fn sorted_once(list: &Vec<u32>) -> (out: Vec<u32>)
    ensures
        forall|a: int, b: int|
            0 <= a < b < out@.len() ==> #[trigger] out@[a] < #[trigger] out@[b],
        forall|v: int| #[trigger] has(out@, v) == has(list@, v),
{
    let mut keys: Vec<i64> = Vec::new();
    for i in 0..list.len()
        invariant
            keys@.len() == i,
            forall|k: int| 0 <= k < i ==> #[trigger] keys@[k] == list@[k],
    {
        keys.push(list[i] as i64);
    }
    let by_key = ByKey { keys };
    let order = sorted_order(&by_key);
    proof {
        sorting::order_lists_each_once(&by_key, order@, list@.len() as int);
    }
    let mut out: Vec<u32> = Vec::new();
    for k in 0..order.len()
        invariant
            by_key.keys@.len() == list@.len(),
            forall|i: int| 0 <= i < list@.len() ==> #[trigger] by_key.keys@[i] == list@[i],
            sorting::in_order(&by_key, order@, 0, list@.len() as int),
            forall|a: int, b: int|
                0 <= a < b < out@.len() ==> #[trigger] out@[a] < #[trigger] out@[b],
            k == 0 ==> out@.len() == 0,
            k > 0 ==> out@.len() > 0 && out@.last() == list@[order@[k - 1] as int],
            forall|a: int| 0 <= a < k ==> has(out@, list@[#[trigger] order@[a] as int] as int),
            forall|v: int| #[trigger] has(out@, v) ==> has(list@, v),
    {
        let x: u32 = list[order[k]];
        let ghost before = out@;
        proof {
            if k > 0 {
                assert(sorting::comes_before(&by_key, order@[k - 1] as int, order@[k as int] as int));
            }
        }
        if out.len() == 0 || out[out.len() - 1] != x {
            out.push(x);
            proof {
                assert forall|v: int| #[trigger] has(out@, v) implies has(list@, v) by {
                    has_pushed(before, x, v);
                    if x == v {
                        assert(list@[order@[k as int] as int] == v);
                    }
                }
                assert forall|a: int| 0 <= a < k + 1 implies has(
                    out@,
                    list@[#[trigger] order@[a] as int] as int,
                ) by {
                    has_pushed(before, x, list@[order@[a] as int] as int);
                }
            }
        } else {
            assert(out@[out@.len() - 1] == x);
        }
    }
    proof {
        assert forall|v: int| #[trigger] has(out@, v) == has(list@, v) by {
            if has(list@, v) {
                let i = choose|i: int| 0 <= i < list@.len() && #[trigger] list@[i] == v;
                assert(sorting::listed(order@, i));
                let a = choose|a: int| 0 <= a < order@.len() && #[trigger] order@[a] == i;
                assert(has(out@, list@[order@[a] as int] as int));
            }
        }
    }
    out
}

/// The neighbours of each vertex: the other ends of its sides, ascending, each
/// once.
pub fn neighbor_lists(vertices: usize, indices: &Vec<u32>) -> (lists: Vec<Vec<u32>>)
    requires
        forall|i: int| 0 <= i < indices@.len() ==> (#[trigger] indices@[i]) < vertices,
    ensures
        lists@.len() == vertices,
        forall|u: int, a: int, b: int|
            0 <= u < vertices && 0 <= a < b < lists@[u]@.len() ==> #[trigger] lists@[u]@[a]
                < #[trigger] lists@[u]@[b],
        forall|u: int, v: int|
            0 <= u < vertices ==> #[trigger] has(lists@[u]@, v) == linked(
                indices@,
                indices@.len() as int / 3,
                u,
                v,
            ),
{
    let mut lists: Vec<Vec<u32>> = Vec::new();
    for u in 0..vertices
        invariant
            lists@.len() == u,
            forall|w: int| 0 <= w < u ==> (#[trigger] lists@[w])@.len() == 0,
    {
        lists.push(Vec::new());
    }
    let n: usize = indices.len() / 3;
    for t in 0..n
        invariant
            n == indices@.len() / 3,
            lists@.len() == vertices,
            forall|i: int| 0 <= i < indices@.len() ==> (#[trigger] indices@[i]) < vertices,
            forall|u: int, v: int|
                0 <= u < vertices ==> #[trigger] has(lists@[u]@, v) == linked(
                    indices@,
                    t as int,
                    u,
                    v,
                ),
    {
        let len: usize = indices.len();
        assert(3 * t + 2 < len);
        let a: u32 = indices[3 * t];
        let b: u32 = indices[3 * t + 1];
        let c: u32 = indices[3 * t + 2];
        let ghost l0 = lists@;
        add_neighbor(&mut lists, a, b);
        let ghost l1 = lists@;
        add_neighbor(&mut lists, b, a);
        let ghost l2 = lists@;
        add_neighbor(&mut lists, b, c);
        let ghost l3 = lists@;
        add_neighbor(&mut lists, c, b);
        let ghost l4 = lists@;
        add_neighbor(&mut lists, c, a);
        let ghost l5 = lists@;
        add_neighbor(&mut lists, a, c);
        proof {
            assert forall|u: int, v: int| 0 <= u < vertices implies #[trigger] has(lists@[u]@, v)
                == linked(indices@, t as int + 1, u, v) by {
                linked_grows(indices@, t as int, u, v);
                assert(has(l0[u]@, v) == linked(indices@, t as int, u, v));
                has_pushed(l0[u]@, b, v);
                has_pushed(l1[u]@, a, v);
                has_pushed(l2[u]@, c, v);
                has_pushed(l3[u]@, b, v);
                has_pushed(l4[u]@, a, v);
                has_pushed(l5[u]@, c, v);
            }
        }
    }
    let mut out: Vec<Vec<u32>> = Vec::new();
    for u in 0..vertices
        invariant
            lists@.len() == vertices,
            out@.len() == u,
            forall|w: int, a: int, b: int|
                0 <= w < u && 0 <= a < b < out@[w]@.len() ==> #[trigger] out@[w]@[a]
                    < #[trigger] out@[w]@[b],
            forall|w: int, v: int|
                0 <= w < u ==> #[trigger] has(out@[w]@, v) == has(lists@[w]@, v),
    {
        let ghost before = out@;
        out.push(sorted_once(&lists[u]));
        assert(forall|w: int| 0 <= w < u ==> out@[w] == before[w]);
    }
    out
}

/// Neighbours are neighbours of each other.
pub proof fn links_go_both_ways(indices: Seq<u32>, n: int, u: int, v: int)
    requires
        linked(indices, n, u, v),
    ensures
        linked(indices, n, v, u),
{
    let t = choose|t: int| 0 <= t < n && #[trigger] side_in(indices, t, u, v);
    assert(side_in(indices, t, v, u));
}

} // verus!
