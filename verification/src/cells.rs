//! Points found again by the cell of space that they lie in, for colours and
//! for normals.
//!
//! Space is cut into cubes that are numbered along each axis. Which cell a point
//! lies in, and how far two points are apart, is arithmetic on floats and is
//! left to the caller; distances come back as the bits of singles.

use crate::ieee;
use crate::sorting::{self, sorted_order, ByKey};
use std::collections::HashMap;
use vstd::prelude::*;

verus! {

/// The number of a cell along each axis.
pub type Cell = (i32, i32, i32);

/// A cell as one number.
pub open spec fn cell_key(c: Cell) -> int {
    (c.0 + 0x8000_0000) * 0x1_0000_0000_0000_0000 + (c.1 + 0x8000_0000) * 0x1_0000_0000 + (c.2
        + 0x8000_0000)
}

/// Different cells have different numbers, and each number fits in 96 bits.
pub proof fn cell_keys_are_distinct(c: Cell, d: Cell)
    ensures
        0 <= cell_key(c) < 0x1_0000_0000_0000_0000_0000_0000,
        cell_key(c) == cell_key(d) ==> c == d,
{
    let (a0, a1, a2) = (c.0 + 0x8000_0000, c.1 + 0x8000_0000, c.2 + 0x8000_0000);
    let (b0, b1, b2) = (d.0 + 0x8000_0000, d.1 + 0x8000_0000, d.2 + 0x8000_0000);
    assert(0 <= a1 * 0x1_0000_0000 + a2 < 0x1_0000_0000_0000_0000);
    assert(0 <= b1 * 0x1_0000_0000 + b2 < 0x1_0000_0000_0000_0000);
    if cell_key(c) == cell_key(d) {
        assert(a0 == b0);
        assert(a1 == b1);
    }
}

fn key_of(c: Cell) -> (k: u128)
    ensures
        k == cell_key(c),
{
    proof {
        cell_keys_are_distinct(c, c);
    }
    let x: u128 = (c.0 as i64 + 0x8000_0000) as u128;
    let y: u128 = (c.1 as i64 + 0x8000_0000) as u128;
    let z: u128 = (c.2 as i64 + 0x8000_0000) as u128;
    x * 0x1_0000_0000_0000_0000 + y * 0x1_0000_0000 + z
}

/// The numbers of the items in a cell, in order.
pub open spec fn items_in(cells: Seq<Cell>, ids: Seq<u32>, c: Cell) -> Seq<u32>
    decreases cells.len(),
{
    if cells.len() == 0 {
        Seq::empty()
    } else {
        let before = items_in(cells.drop_last(), ids, c);
        if cells.last() == c {
            before.push(ids[cells.len() - 1])
        } else {
            before
        }
    }
}

/// Items found by their cell.
pub struct CellIndex {
    places: HashMap<u128, usize>,
    lists: Vec<Vec<u32>>,
}

impl CellIndex {
    /// What is found in a cell.
    pub closed spec fn found(self, c: Cell) -> Seq<u32> {
        if self.places@.contains_key(cell_key(c) as u128) {
            self.lists@[self.places@[cell_key(c) as u128] as int]@
        } else {
            Seq::empty()
        }
    }

    /// Does every cell that is known have a list of its own?
    pub closed spec fn well_formed(self) -> bool {
        &&& forall|k: u128| #[trigger]
            self.places@.contains_key(k) ==> self.places@[k] < self.lists@.len()
        &&& forall|k: u128, l: u128| #[trigger]
            self.places@.contains_key(k) && #[trigger] self.places@.contains_key(l) && k != l
                ==> self.places@[k] != self.places@[l]
    }

    /// Is every item found in its cell, in order, and nothing else?
    pub open spec fn holds(self, cells: Seq<Cell>, ids: Seq<u32>) -> bool {
        forall|c: Cell| #[trigger] self.found(c) == items_in(cells, ids, c)
    }

    /// The items with the numbers `ids`, by their cells.
    pub fn build(cells: &Vec<Cell>, ids: &Vec<u32>) -> (index: CellIndex)
        requires
            cells@.len() == ids@.len(),
        ensures
            index.well_formed(),
            index.holds(cells@, ids@),
    {
        broadcast use vstd::std_specs::hash::group_hash_axioms;

        let mut index = CellIndex { places: HashMap::new(), lists: Vec::new() };
        assert forall|c: Cell| #[trigger] index.found(c) == items_in(
            cells@.take(0),
            ids@,
            c,
        ) by {
            assert(index.found(c) =~= Seq::<u32>::empty());
        }
        for i in 0..cells.len()
            invariant
                cells@.len() == ids@.len(),
                index.well_formed(),
                index.holds(cells@.take(i as int), ids@),
        {
            let ghost before = index;
            index.put(cells[i], ids[i]);
            assert forall|c: Cell| #[trigger] index.found(c) == items_in(
                cells@.take(i as int + 1),
                ids@,
                c,
            ) by {
                assert(cells@.take(i as int + 1).drop_last() =~= cells@.take(i as int));
                assert(before.found(c) == items_in(cells@.take(i as int), ids@, c));
            }
        }
        assert(cells@.take(cells@.len() as int) =~= cells@);
        index
    }

    fn put(&mut self, cell: Cell, id: u32)
        requires
            old(self).well_formed(),
        ensures
            final(self).well_formed(),
            forall|c: Cell| #[trigger]
                final(self).found(c) == if c == cell {
                    old(self).found(c).push(id)
                } else {
                    old(self).found(c)
                },
    {
        broadcast use vstd::std_specs::hash::group_hash_axioms;

        let key: u128 = key_of(cell);
        let ghost before = *self;
        let known: Option<usize> = match self.places.get(&key) {
            Some(p) => Some(*p),
            None => None,
        };
        let place: usize = match known {
            Some(p) => p,
            None => {
                let p: usize = self.lists.len();
                self.places.insert(key, p);
                self.lists.push(Vec::new());
                p
            },
        };
        let mut list: Vec<u32> = Vec::new();
        std::mem::swap(&mut list, &mut self.lists[place]);
        list.push(id);
        std::mem::swap(&mut list, &mut self.lists[place]);
        proof {
            assert forall|c: Cell| #[trigger] self.found(c) == if c == cell {
                before.found(c).push(id)
            } else {
                before.found(c)
            } by {
                cell_keys_are_distinct(c, cell);
                if c == cell {
                    assert(self.found(c) =~= before.found(c).push(id));
                } else {
                    assert(self.found(c) =~= before.found(c));
                }
            }
        }
    }

    /// The numbers of the items in a cell, in order.
    pub fn items(&self, c: Cell) -> (out: Vec<u32>)
        requires
            self.well_formed(),
        ensures
            out@ == self.found(c),
    {
        broadcast use vstd::std_specs::hash::group_hash_axioms;

        proof {
            cell_keys_are_distinct(c, c);
        }
        let mut out: Vec<u32> = Vec::new();
        match self.places.get(&key_of(c)) {
            Some(p) => {
                let list = &self.lists[*p];
                for i in 0..list.len()
                    invariant
                        out@ == list@.take(i as int),
                {
                    out.push(list[i]);
                }
                assert(list@.take(list@.len() as int) =~= list@);
            },
            None => {},
        }
        out
    }
}

/// The width of the cube of cells that reaches `shell` cells out.
pub open spec fn cube_width(shell: int) -> int {
    2 * shell + 1
}

/// Step `k` of the way through the cube round a cell: along x first, then y,
/// then z.
pub open spec fn cube_offset(shell: int, k: int) -> (int, int, int) {
    let w = cube_width(shell);
    (k % w - shell, (k / w) % w - shell, k / (w * w) - shell)
}

/// Is the step looked at: all of the first cube, but only the outermost cells of
/// the larger ones, whose insides were looked at before?
pub open spec fn looked_at(shell: int, o: (int, int, int)) -> bool {
    shell <= 1 || o.0 == -shell || o.0 == shell || o.1 == -shell || o.1 == shell || o.2 == -shell
        || o.2 == shell
}

/// The cell at an offset, if its numbers can be represented.
pub open spec fn cell_at(c: Cell, o: (int, int, int)) -> Option<Cell> {
    let (x, y, z) = (c.0 + o.0, c.1 + o.1, c.2 + o.2);
    if i32::MIN <= x <= i32::MAX && i32::MIN <= y <= i32::MAX && i32::MIN <= z <= i32::MAX {
        Some((x as i32, y as i32, z as i32))
    } else {
        None
    }
}

/// What a step of the way finds.
pub open spec fn found_at_step(
    cells: Seq<Cell>,
    ids: Seq<u32>,
    c: Cell,
    shell: int,
    k: int,
) -> Seq<u32> {
    let o = cube_offset(shell, k);
    if looked_at(shell, o) {
        match cell_at(c, o) {
            Some(d) => items_in(cells, ids, d),
            None => Seq::empty(),
        }
    } else {
        Seq::empty()
    }
}

/// What the first `n` steps of the way find, in order.
pub open spec fn found_within(
    cells: Seq<Cell>,
    ids: Seq<u32>,
    c: Cell,
    shell: int,
    n: int,
) -> Seq<u32>
    decreases n,
{
    if n <= 0 {
        Seq::empty()
    } else {
        found_within(cells, ids, c, shell, n - 1) + found_at_step(cells, ids, c, shell, n - 1)
    }
}

/// The items of the cells round a cell, at the distance of a shell.
pub open spec fn around(cells: Seq<Cell>, ids: Seq<u32>, c: Cell, shell: int) -> Seq<u32> {
    let w = cube_width(shell);
    found_within(cells, ids, c, shell, w * w * w)
}

/// How far out the search for a colour goes.
pub const LAST_SHELL: u32 = 3;

impl CellIndex {
    fn step_items(&self, c: Cell, shell: i64, k: i64) -> (out: Vec<u32>)
        requires
            self.well_formed(),
            1 <= shell <= LAST_SHELL,
            0 <= k < cube_width(shell as int) * cube_width(shell as int) * cube_width(shell as int),
        ensures
            forall|cells: Seq<Cell>, ids: Seq<u32>| #[trigger]
                self.holds(cells, ids) ==> out@ == found_at_step(
                    cells,
                    ids,
                    c,
                    shell as int,
                    k as int,
                ),
    {
        let w: i64 = 2 * shell + 1;
        assert(w * w <= 49) by (nonlinear_arith)
            requires
                3 <= w <= 7,
        ;
        assert(9 <= w * w) by (nonlinear_arith)
            requires
                3 <= w <= 7,
        ;
        assert(w * w * w <= 343) by (nonlinear_arith)
            requires
                3 <= w <= 7,
        ;
        let dx: i64 = k % w - shell;
        let dy: i64 = (k / w) % w - shell;
        let area: i64 = w * w;
        let dz: i64 = k / area - shell;
        assert(0 <= k / w <= k) by (nonlinear_arith)
            requires
                0 <= k,
                3 <= w,
        ;
        assert(0 <= k / area <= k) by (nonlinear_arith)
            requires
                0 <= k,
                9 <= area,
        ;
        let inner = shell > 1 && dx != -shell && dx != shell && dy != -shell && dy != shell && dz
            != -shell && dz != shell;
        let empty: Vec<u32> = Vec::new();
        assert(empty@ =~= Seq::<u32>::empty());
        if inner {
            return empty;
        }
        let x: i64 = c.0 as i64 + dx;
        let y: i64 = c.1 as i64 + dy;
        let z: i64 = c.2 as i64 + dz;
        let (lo, hi): (i64, i64) = (i32::MIN as i64, i32::MAX as i64);
        if x < lo || x > hi || y < lo || y > hi || z < lo || z > hi {
            return empty;
        }
        let d: Cell = (x as i32, y as i32, z as i32);
        let out = self.items(d);
        assert(forall|cells: Seq<Cell>, ids: Seq<u32>| #[trigger]
            self.holds(cells, ids) ==> self.found(d) == items_in(cells, ids, d));
        out
    }

    /// The items of the cells round a cell, at the distance of a shell, in the
    /// order in which the cells are visited.
    pub fn candidates(&self, c: Cell, shell: u32) -> (out: Vec<u32>)
        requires
            self.well_formed(),
            1 <= shell <= LAST_SHELL,
        ensures
            forall|cells: Seq<Cell>, ids: Seq<u32>| #[trigger]
                self.holds(cells, ids) ==> out@ == around(cells, ids, c, shell as int),
    {
        let w: i64 = 2 * (shell as i64) + 1;
        assert(w * w <= 49 && w * w * w <= 343) by (nonlinear_arith)
            requires
                3 <= w <= 7,
        ;
        let n: i64 = w * w * w;
        let mut out: Vec<u32> = Vec::new();
        let mut k: i64 = 0;
        assert(forall|cells: Seq<Cell>, ids: Seq<u32>|
            out@ =~= #[trigger] found_within(cells, ids, c, shell as int, 0));
        while k < n
            invariant
                self.well_formed(),
                1 <= shell <= LAST_SHELL,
                w == 2 * shell + 1,
                n == w * w * w,
                n <= 343,
                0 <= k <= n,
                forall|cells: Seq<Cell>, ids: Seq<u32>| #[trigger]
                    self.holds(cells, ids) ==> out@ == found_within(
                        cells,
                        ids,
                        c,
                        shell as int,
                        k as int,
                    ),
            decreases n - k,
        {
            let here = self.step_items(c, shell as i64, k);
            let ghost before = out@;
            for j in 0..here.len()
                invariant
                    out@ == before + here@.take(j as int),
            {
                out.push(here[j]);
                assert(before + here@.take(j as int + 1) =~= (before + here@.take(j as int)).push(
                    here@[j as int],
                ));
            }
            assert(here@.take(here@.len() as int) =~= here@);
            k += 1;
        }
        out
    }
}

/// Does the search end with `shell`: is it the last one, or is the smallest
/// squared distance so far, `best`, no larger than `reach`, the squared distance
/// up to which everything has been searched?
pub open spec fn search_ends(shell: u32, best: Option<u32>, reach: u32) -> bool {
    shell >= LAST_SHELL || (best matches Some(b) && ieee::at_least(reach, b))
}

/// The shell to search next, if a further one can hold something nearer.
pub fn next_shell(shell: u32, best: Option<u32>, reach: u32) -> (next: Option<u32>)
    ensures
        next == (if search_ends(shell, best, reach) {
            None
        } else {
            Some((shell + 1) as u32)
        }),
        best is None ==> next == (if shell < 3 {
            Some((shell + 1) as u32)
        } else {
            None
        }),
{
    let near_enough = match best {
        Some(b) => ieee::is_at_least(reach, b),
        None => false,
    };
    if near_enough || shell >= LAST_SHELL {
        None
    } else {
        Some(shell + 1)
    }
}

/// Is no squared distance among those of the cells up to `shell` away from `c`
/// smaller than `best`, or below infinity where nothing was found?
pub open spec fn none_nearer(
    cells: Seq<Cell>,
    d2: Seq<u32>,
    c: Cell,
    shell: int,
    best: Option<u32>,
) -> bool {
    forall|j: int|
        0 <= j < cells.len() && apart(c, #[trigger] cells[j]) <= shell ==> !ieee::less(
            d2[j],
            match best {
                Some(b) => b,
                None => ieee::INFINITY,
            },
        )
}

/// Where the search ends, nothing in the shells that were left out is nearer than
/// what was found.
pub proof fn search_ends_with_nearest(
    cells: Seq<Cell>,
    d2: Seq<u32>,
    c: Cell,
    shell: u32,
    best: Option<u32>,
    reach: u32,
)
    requires
        cells.len() == d2.len(),
        none_nearer(cells, d2, c, shell as int, best),
        forall|j: int|
            0 <= j < cells.len() && apart(c, #[trigger] cells[j]) > shell ==> ieee::at_least(
                d2[j],
                reach,
            ),
        search_ends(shell, best, reach),
    ensures
        none_nearer(cells, d2, c, LAST_SHELL as int, best),
{
}

/// The place of the smallest of the first `n` distances, the first of equal ones,
/// if one is below infinity.
pub open spec fn nearest_of(d2: Seq<u32>, n: int) -> Option<int>
    decreases n,
{
    if n <= 0 {
        None
    } else {
        let best = nearest_of(d2, n - 1);
        let least = match best {
            Some(i) => d2[i],
            None => ieee::INFINITY,
        };
        if ieee::less(d2[n - 1], least) {
            Some(n - 1)
        } else {
            best
        }
    }
}

/// The place of the first smallest distance, if one is below infinity.
pub fn nearest(d2: &Vec<u32>) -> (best: Option<usize>)
    ensures
        (match best {
            Some(i) => Some(i as int),
            None => None,
        }) == nearest_of(d2@, d2@.len() as int),
        best matches Some(i) ==> i < d2@.len(),
{
    let mut best: Option<usize> = None;
    for i in 0..d2.len()
        invariant
            (match best {
                Some(b) => Some(b as int),
                None => None,
            }) == nearest_of(d2@, i as int),
            best matches Some(b) ==> b < i,
    {
        let least: u32 = match best {
            Some(b) => d2[b],
            None => ieee::INFINITY,
        };
        if ieee::is_less(d2[i], least) {
            best = Some(i);
        }
    }
    best
}

/// No distance is smaller than the one that is picked, and none is picked only
/// where none is below infinity.
pub proof fn nearest_is_smallest(d2: Seq<u32>, n: int)
    requires
        0 <= n <= d2.len(),
    ensures
        match nearest_of(d2, n) {
            Some(b) => 0 <= b < n && ieee::less(d2[b], ieee::INFINITY) && forall|k: int|
                0 <= k < n ==> !ieee::less(#[trigger] d2[k], d2[b]),
            None => forall|k: int| 0 <= k < n ==> !ieee::less(#[trigger] d2[k], ieee::INFINITY),
        },
    decreases n,
{
    if n > 0 {
        nearest_is_smallest(d2, n - 1);
    }
}

/// How many neighbours a normal is estimated from.
pub const MAX_NEIGHBORS: usize = 24;

/// How many neighbours it takes to estimate a normal.
pub const MIN_NEIGHBORS: usize = 3;

/// The places of the smallest distances, smallest first, of at most
/// `MAX_NEIGHBORS`; `None` where there are too few to estimate a normal from.
pub fn nearest_few(d2: &Vec<u32>) -> (r: Option<Vec<usize>>)
    ensures
        match r {
            None => d2@.len() < MIN_NEIGHBORS,
            Some(few) => {
                &&& d2@.len() >= MIN_NEIGHBORS
                &&& few@.len() == if d2@.len() < MAX_NEIGHBORS {
                    d2@.len() as int
                } else {
                    MAX_NEIGHBORS as int
                }
                &&& forall|a: int| 0 <= a < few@.len() ==> (#[trigger] few@[a]) < d2@.len()
                &&& forall|a: int, b: int|
                    0 <= a < b < few@.len() ==> #[trigger] few@[a] != #[trigger] few@[b]
                        && ieee::total_rank(d2@[few@[a] as int]) <= ieee::total_rank(
                        d2@[few@[b] as int],
                    )
                &&& forall|a: int, i: int|
                    0 <= a < few@.len() && 0 <= i < d2@.len() && !sorting::listed(few@, i)
                        ==> ieee::total_rank(d2@[#[trigger] few@[a] as int]) <= ieee::total_rank(
                        #[trigger] d2@[i],
                    )
            },
        },
        r is None <==> d2@.len() < 3,
        r matches Some(few) ==> few@.len() == if d2@.len() < 24 {
            d2@.len() as int
        } else {
            24
        },
{
    if d2.len() < MIN_NEIGHBORS {
        return None;
    }
    let mut keys: Vec<i64> = Vec::new();
    for i in 0..d2.len()
        invariant
            keys@.len() == i,
            forall|k: int| 0 <= k < i ==> #[trigger] keys@[k] == ieee::total_rank(d2@[k]),
    {
        keys.push(ieee::to_total_rank(d2[i]) as i64);
    }
    let by_key = ByKey { keys };
    let order = sorted_order(&by_key);
    let n: usize = if order.len() < MAX_NEIGHBORS {
        order.len()
    } else {
        MAX_NEIGHBORS
    };
    let mut few: Vec<usize> = Vec::new();
    for k in 0..n
        invariant
            n <= order@.len(),
            few@ == order@.take(k as int),
    {
        few.push(order[k]);
    }
    proof {
        sorting::order_lists_each_once(&by_key, order@, d2@.len() as int);
        assert forall|a: int, b: int| 0 <= a < b < few@.len() implies #[trigger] few@[a]
            != #[trigger] few@[b] && ieee::total_rank(d2@[few@[a] as int]) <= ieee::total_rank(
            d2@[few@[b] as int],
        ) by {
            assert(few@[a] == order@[a] && few@[b] == order@[b]);
            assert(sorting::comes_before(&by_key, order@[a] as int, order@[b] as int));
        }
        assert forall|a: int, i: int|
            0 <= a < few@.len() && 0 <= i < d2@.len() && !sorting::listed(
                few@,
                i,
            ) implies ieee::total_rank(d2@[#[trigger] few@[a] as int]) <= ieee::total_rank(
            #[trigger] d2@[i],
        ) by {
            assert(sorting::listed(order@, i));
            let b = choose|b: int| 0 <= b < order@.len() && #[trigger] order@[b] == i;
            if b < few@.len() {
                assert(few@[b] == i);
                assert(sorting::listed(few@, i));
            }
            assert(few@[a] == order@[a]);
            assert(sorting::comes_before(&by_key, order@[a] as int, order@[b] as int));
        }
    }
    Some(few)
}

/// The candidates for a point's neighbours without the point itself.
pub fn without(candidates: &Vec<u32>, id: u32) -> (out: Vec<u32>)
    ensures
        out@ == candidates@.filter(|x: u32| x != id),
{
    let mut out: Vec<u32> = Vec::new();
    assert(candidates@.take(0).filter(|x: u32| x != id) =~= Seq::<u32>::empty());
    for i in 0..candidates.len()
        invariant
            out@ == candidates@.take(i as int).filter(|x: u32| x != id),
    {
        assert(candidates@.take(i as int + 1) =~= candidates@.take(i as int).push(
            candidates@[i as int],
        ));
        proof {
            broadcast use vstd::seq_lib::group_filter_ensures;
            reveal(Seq::filter);
            assert(candidates@.take(i as int + 1).drop_last() =~= candidates@.take(i as int));
        }
        if candidates[i] != id {
            out.push(candidates[i]);
        }
    }
    assert(candidates@.take(candidates@.len() as int) =~= candidates@);
    out
}

proof fn item_is_in_its_cell(cells: Seq<Cell>, ids: Seq<u32>, j: int)
    requires
        cells.len() == ids.len(),
        0 <= j < cells.len(),
    ensures
        items_in(cells, ids, cells[j]).contains(ids[j]),
    decreases cells.len(),
{
    items_in_prefix(cells, ids, j, cells.len() as int);
    assert(cells.take(cells.len() as int) =~= cells);
}

proof fn items_in_prefix(cells: Seq<Cell>, ids: Seq<u32>, j: int, n: int)
    requires
        cells.len() == ids.len(),
        0 <= j < n <= cells.len(),
    ensures
        items_in(cells.take(n), ids, cells[j]).contains(ids[j]),
    decreases n,
{
    let upto = cells.take(n);
    let before = items_in(cells.take(n - 1), ids, cells[j]);
    assert(upto.drop_last() =~= cells.take(n - 1));
    let now = items_in(upto, ids, cells[j]);
    if j == n - 1 {
        assert(now[now.len() - 1] == ids[j]);
    } else {
        items_in_prefix(cells, ids, j, n - 1);
        let a = choose|a: int| 0 <= a < before.len() && before[a] == ids[j];
        assert(now[a] == ids[j]);
    }
}

proof fn step_is_within(
    cells: Seq<Cell>,
    ids: Seq<u32>,
    c: Cell,
    shell: int,
    k: int,
    n: int,
    id: u32,
)
    requires
        0 <= k < n,
        found_at_step(cells, ids, c, shell, k).contains(id),
    ensures
        found_within(cells, ids, c, shell, n).contains(id),
    decreases n,
{
    let before = found_within(cells, ids, c, shell, n - 1);
    let here = found_at_step(cells, ids, c, shell, n - 1);
    let all = found_within(cells, ids, c, shell, n);
    if k == n - 1 {
        let a = choose|a: int| 0 <= a < here.len() && here[a] == id;
        assert(all[before.len() + a] == id);
    } else {
        step_is_within(cells, ids, c, shell, k, n - 1, id);
        let a = choose|a: int| 0 <= a < before.len() && before[a] == id;
        assert(all[a] == id);
    }
}

/// How many cells two cells are apart, along the axis where they are farthest.
pub open spec fn apart(c: Cell, d: Cell) -> int {
    let (x, y, z) = (d.0 - c.0, d.1 - c.1, d.2 - c.2);
    let (x, y, z) = (
        if x < 0 {
            -x
        } else {
            x
        },
        if y < 0 {
            -y
        } else {
            y
        },
        if z < 0 {
            -z
        } else {
            z
        },
    );
    if x >= y && x >= z {
        x
    } else if y >= z {
        y
    } else {
        z
    }
}

/// An item within reach is a candidate in the shell that its cell lies in, so
/// that the search fails only where there is nothing within three cells.
pub proof fn items_within_reach_are_found(
    cells: Seq<Cell>,
    ids: Seq<u32>,
    c: Cell,
    j: int,
    shell: int,
)
    requires
        cells.len() == ids.len(),
        0 <= j < cells.len(),
        1 <= shell <= LAST_SHELL,
        apart(c, cells[j]) == shell || (shell == 1 && apart(c, cells[j]) == 0),
    ensures
        around(cells, ids, c, shell).contains(ids[j]),
{
    let d = cells[j];
    let (x, y, z) = (d.0 - c.0 + shell, d.1 - c.1 + shell, d.2 - c.2 + shell);
    let w = cube_width(shell);
    let k = (z * w + y) * w + x;
    cube_step_of(shell, x, y, z);
    assert(found_at_step(cells, ids, c, shell, k) == items_in(cells, ids, d));
    item_is_in_its_cell(cells, ids, j);
    step_is_within(cells, ids, c, shell, k, w * w * w, ids[j]);
}

/// The cube is gone through along x first, then y, then z, so that every offset has
/// its step.
pub proof fn cube_step_of(shell: int, x: int, y: int, z: int)
    requires
        1 <= shell,
        0 <= x < cube_width(shell),
        0 <= y < cube_width(shell),
        0 <= z < cube_width(shell),
    ensures
        ({
            let w = cube_width(shell);
            let k = (z * w + y) * w + x;
            &&& cube_offset(shell, k) == (x - shell, y - shell, z - shell)
            &&& 0 <= k < w * w * w
        }),
{
    let w = cube_width(shell);
    let m = z * w + y;
    let k = m * w + x;
    assert(k % w == x && k / w == m) by {
        vstd::arithmetic::div_mod::lemma_fundamental_div_mod_converse(k, w, m, x);
    }
    assert(m % w == y && m / w == z) by {
        vstd::arithmetic::div_mod::lemma_fundamental_div_mod_converse(m, w, z, y);
    }
    assert(0 <= m) by (nonlinear_arith)
        requires
            m == z * w + y,
            0 <= z,
            0 <= y,
            0 < w,
    ;
    assert(0 <= k) by (nonlinear_arith)
        requires
            k == m * w + x,
            0 <= m,
            0 <= x,
            0 < w,
    ;
    vstd::arithmetic::div_mod::lemma_div_denominator(k, w, w);
    assert(m < w * w) by (nonlinear_arith)
        requires
            m == z * w + y,
            z + 1 <= w,
            y < w,
            0 < w,
    ;
    assert(k < w * w * w) by (nonlinear_arith)
        requires
            k == m * w + x,
            m + 1 <= w * w,
            x < w,
            0 < w,
    ;
}

} // verus!
