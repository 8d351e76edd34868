//! Stable sorting of numbered items.

use vstd::prelude::*;

verus! {

/// Items with a number each, and a total preorder on them.
pub trait Ranked {
    /// How many items there are.
    spec fn size(&self) -> nat;

    /// Does item `i` rank no later than item `j`?
    spec fn ranks(&self, i: int, j: int) -> bool;

    /// Any two items compare.
    proof fn total(&self, i: int, j: int)
        ensures
            self.ranks(i, j) || self.ranks(j, i),
    ;

    /// Ranking is transitive.
    proof fn transitive(&self, i: int, j: int, k: int)
        requires
            self.ranks(i, j),
            self.ranks(j, k),
        ensures
            self.ranks(i, k),
    ;

    /// How many items there are.
    fn count(&self) -> (n: usize)
        ensures
            n == self.size(),
    ;

    /// Does item `i` rank no later than item `j`?
    fn at_most(&self, i: usize, j: usize) -> (b: bool)
        requires
            i < self.size(),
            j < self.size(),
        ensures
            b == self.ranks(i as int, j as int),
    ;
}

/// Does item `i` come before item `j`: by rank, and by number where the ranks
/// are equal?
pub open spec fn comes_before<O: Ranked>(o: &O, i: int, j: int) -> bool {
    o.ranks(i, j) && (!o.ranks(j, i) || i < j)
}

proof fn comes_before_is_transitive<O: Ranked>(o: &O, i: int, j: int, k: int)
    requires
        comes_before(o, i, j),
        comes_before(o, j, k),
    ensures
        comes_before(o, i, k),
{
    o.transitive(i, j, k);
    if o.ranks(k, i) {
        o.transitive(k, i, j);
        o.transitive(j, k, i);
    }
}

/// Are these the numbers from `lo` up to `hi`, each before the next?
pub open spec fn in_order<O: Ranked>(o: &O, order: Seq<usize>, lo: int, hi: int) -> bool {
    &&& order.len() == hi - lo
    &&& forall|a: int| 0 <= a < order.len() ==> lo <= #[trigger] order[a] < hi
    &&& forall|a: int, b: int|
        0 <= a < b < order.len() ==> comes_before(o, #[trigger] order[a] as int, #[trigger] order[b] as int)
    &&& forall|i: int| lo <= i < hi ==> #[trigger] listed(order, i)
}

/// Is the number in the list?
pub open spec fn listed(order: Seq<usize>, i: int) -> bool {
    exists|a: int| 0 <= a < order.len() && #[trigger] order[a] == i
}

fn merge<O: Ranked>(
    o: &O,
    left: &Vec<usize>,
    right: &Vec<usize>,
    Ghost(lo): Ghost<int>,
    Ghost(mid): Ghost<int>,
    Ghost(hi): Ghost<int>,
) -> (out: Vec<usize>)
    requires
        0 <= lo <= mid <= hi <= o.size(),
        hi <= usize::MAX,
        in_order(o, left@, lo, mid),
        in_order(o, right@, mid, hi),
    ensures
        in_order(o, out@, lo, hi),
{
    let (m, n): (usize, usize) = (left.len(), right.len());
    let mut out: Vec<usize> = Vec::new();
    let mut i: usize = 0;
    let mut j: usize = 0;
    while i < m || j < n
        invariant
            i <= m,
            j <= n,
            m == left@.len(),
            n == right@.len(),
            0 <= lo <= mid <= hi <= o.size(),
            hi <= usize::MAX,
            in_order(o, left@, lo, mid),
            in_order(o, right@, mid, hi),
            out@.len() == i + j,
            forall|a: int| 0 <= a < out@.len() ==> lo <= #[trigger] out@[a] < hi,
            forall|a: int, b: int|
                0 <= a < b < out@.len() ==> comes_before(
                    o,
                    #[trigger] out@[a] as int,
                    #[trigger] out@[b] as int,
                ),
            forall|a: int, b: int|
                0 <= a < out@.len() && i <= b < m ==> comes_before(
                    o,
                    #[trigger] out@[a] as int,
                    #[trigger] left@[b] as int,
                ),
            forall|a: int, b: int|
                0 <= a < out@.len() && j <= b < n ==> comes_before(
                    o,
                    #[trigger] out@[a] as int,
                    #[trigger] right@[b] as int,
                ),
            forall|a: int| 0 <= a < i ==> listed(out@, #[trigger] left@[a] as int),
            forall|a: int| 0 <= a < j ==> listed(out@, #[trigger] right@[a] as int),
        decreases m + n - i - j,
    {
        let take_left = if i == m {
            false
        } else if j == n {
            true
        } else {
            o.at_most(left[i], right[j])
        };
        let ghost before = out@;
        let ghost (i0, j0) = (i as int, j as int);
        if take_left {
            let x: usize = left[i];
            proof {
                assert forall|b: int| j0 <= b < n implies comes_before(
                    o,
                    x as int,
                    #[trigger] right@[b] as int,
                ) by {
                    assert(comes_before(o, x as int, right@[j0] as int));
                    if b > j0 {
                        comes_before_is_transitive(o, x as int, right@[j0] as int, right@[b] as int);
                    }
                }
            }
            out.push(x);
            i += 1;
        } else {
            let x: usize = right[j];
            proof {
                assert forall|b: int| i0 <= b < m implies comes_before(
                    o,
                    x as int,
                    #[trigger] left@[b] as int,
                ) by {
                    o.total(x as int, left@[i0] as int);
                    assert(comes_before(o, x as int, left@[i0] as int));
                    if b > i0 {
                        comes_before_is_transitive(o, x as int, left@[i0] as int, left@[b] as int);
                    }
                }
            }
            out.push(x);
            j += 1;
        }
        proof {
            let last = before.len() as int;
            assert(out@[last] == out@.last());
            assert forall|a: int| 0 <= a < i implies listed(out@, #[trigger] left@[a] as int) by {
                if a < i0 {
                    assert(listed(before, left@[a] as int));
                    let k = choose|k: int| 0 <= k < before.len() && #[trigger] before[k] == left@[a];
                    assert(out@[k] == left@[a]);
                } else {
                    assert(out@[last] == left@[a]);
                }
            }
            assert forall|a: int| 0 <= a < j implies listed(out@, #[trigger] right@[a] as int) by {
                if a < j0 {
                    assert(listed(before, right@[a] as int));
                    let k = choose|k: int|
                        0 <= k < before.len() && #[trigger] before[k] == right@[a];
                    assert(out@[k] == right@[a]);
                } else {
                    assert(out@[last] == right@[a]);
                }
            }
        }
    }
    proof {
        assert forall|x: int| lo <= x < hi implies #[trigger] listed(out@, x) by {
            if x < mid {
                assert(listed(left@, x));
                let a = choose|a: int| 0 <= a < left@.len() && #[trigger] left@[a] == x;
                assert(listed(out@, left@[a] as int));
            } else {
                assert(listed(right@, x));
                let a = choose|a: int| 0 <= a < right@.len() && #[trigger] right@[a] == x;
                assert(listed(out@, right@[a] as int));
            }
        }
    }
    out
}

fn sort_range<O: Ranked>(o: &O, lo: usize, hi: usize) -> (out: Vec<usize>)
    requires
        lo <= hi <= o.size(),
    ensures
        in_order(o, out@, lo as int, hi as int),
    decreases hi - lo,
{
    if hi - lo < 2 {
        let mut out: Vec<usize> = Vec::new();
        if lo < hi {
            out.push(lo);
            assert(out@[0] == lo);
        }
        return out;
    }
    let mid: usize = lo + (hi - lo) / 2;
    let left = sort_range(o, lo, mid);
    let right = sort_range(o, mid, hi);
    merge(o, &left, &right, Ghost(lo as int), Ghost(mid as int), Ghost(hi as int))
}

/// The numbers of the items in order of rank, items of equal rank in order of
/// their numbers.
pub fn sorted_order<O: Ranked>(o: &O) -> (order: Vec<usize>)
    ensures
        in_order(o, order@, 0, o.size() as int),
{
    let n: usize = o.count();
    sort_range(o, 0, n)
}

/// Sorting has one outcome only.
pub proof fn order_is_unique<O: Ranked>(o: &O, p: Seq<usize>, q: Seq<usize>, lo: int, hi: int)
    requires
        in_order(o, p, lo, hi),
        in_order(o, q, lo, hi),
    ensures
        p == q,
{
    assert forall|k: int| 0 <= k < p.len() implies p[k] == q[k] by {
        order_agrees(o, p, q, lo, hi, k);
    }
    assert(p =~= q);
}

proof fn order_agrees<O: Ranked>(o: &O, p: Seq<usize>, q: Seq<usize>, lo: int, hi: int, k: int)
    requires
        in_order(o, p, lo, hi),
        in_order(o, q, lo, hi),
        0 <= k < p.len(),
    ensures
        p[k] == q[k],
    decreases k,
{
    assert forall|m: int| 0 <= m < k implies p[m] == q[m] by {
        order_agrees(o, p, q, lo, hi, m);
    }
    let (x, y) = (p[k] as int, q[k] as int);
    if x != y {
        assert(listed(q, x));
        let a = choose|a: int| 0 <= a < q.len() && #[trigger] q[a] == x;
        assert(a > k) by {
            if a < k {
                assert(comes_before(o, p[a] as int, p[k] as int));
            }
        }
        assert(comes_before(o, q[k] as int, q[a] as int));
        assert(listed(p, y));
        let b = choose|b: int| 0 <= b < p.len() && #[trigger] p[b] == y;
        assert(b > k) by {
            if b < k {
                assert(comes_before(o, q[b] as int, q[k] as int));
            }
        }
        assert(comes_before(o, p[k] as int, p[b] as int));
        comes_before_is_transitive(o, x, y, x);
    }
}

/// The items in the order that the list gives.
pub open spec fn arranged<T>(s: Seq<T>, order: Seq<usize>) -> Seq<T> {
    Seq::new(order.len(), |k: int| s[order[k] as int])
}

/// Are these the numbers below `n`, each once?
pub open spec fn each_once(order: Seq<usize>, n: int) -> bool {
    &&& order.len() == n
    &&& forall|a: int| 0 <= a < n ==> 0 <= #[trigger] order[a] < n
    &&& forall|a: int, b: int| 0 <= a < b < n ==> #[trigger] order[a] != #[trigger] order[b]
    &&& forall|i: int| 0 <= i < n ==> #[trigger] listed(order, i)
}

/// What is in order lists each number once.
pub proof fn order_lists_each_once<O: Ranked>(o: &O, order: Seq<usize>, n: int)
    requires
        in_order(o, order, 0, n),
    ensures
        each_once(order, n),
{
    assert forall|a: int, b: int| 0 <= a < b < n implies #[trigger] order[a] != #[trigger] order[b] by {
        assert(comes_before(o, order[a] as int, order[b] as int));
    }
}

/// Arranging items anew keeps them all and adds none.
pub proof fn arranged_keeps_items<T>(s: Seq<T>, order: Seq<usize>)
    requires
        each_once(order, s.len() as int),
    ensures
        arranged(s, order).to_multiset() == s.to_multiset(),
    decreases s.len(),
{
    let n = s.len() as int;
    if n == 0 {
        assert(arranged(s, order) =~= s);
    } else {
        assert(listed(order, n - 1));
        let a = choose|a: int| 0 <= a < order.len() && #[trigger] order[a] == n - 1;
        let rest = order.remove(a);
        let t = s.drop_last();
        assert forall|k: int| 0 <= k < n - 1 implies 0 <= #[trigger] rest[k] < n - 1 by {
            let b = if k < a {
                k
            } else {
                k + 1
            };
            assert(rest[k] == order[b]);
            assert(b != a);
            if b < a {
                assert(order[b] != order[a]);
            } else {
                assert(order[a] != order[b]);
            }
        }
        assert forall|x: int, y: int| 0 <= x < y < n - 1 implies #[trigger] rest[x]
            != #[trigger] rest[y] by {
            let bx = if x < a {
                x
            } else {
                x + 1
            };
            let by_ = if y < a {
                y
            } else {
                y + 1
            };
            assert(rest[x] == order[bx] && rest[y] == order[by_]);
            assert(order[bx] != order[by_]);
        }
        assert forall|i: int| 0 <= i < n - 1 implies #[trigger] listed(rest, i) by {
            assert(listed(order, i));
            let b = choose|b: int| 0 <= b < order.len() && #[trigger] order[b] == i;
            if b < a {
                assert(rest[b] == i);
            } else {
                assert(rest[b - 1] == i);
            }
        }
        arranged_keeps_items(t, rest);
        let small = arranged(t, rest);
        assert(arranged(s, order) =~= small.insert(a, s.last())) by {
            assert forall|k: int| 0 <= k < n implies arranged(s, order)[k] == small.insert(
                a,
                s.last(),
            )[k] by {
                if k < a {
                    assert(rest[k] == order[k]);
                } else if k > a {
                    assert(rest[k - 1] == order[k]);
                }
            }
        }
        vstd::seq_lib::to_multiset_insert(small, a, s.last());
        assert(s =~= t.push(s.last()));
        vstd::seq_lib::to_multiset_build(t, s.last());
    }
}

/// Items ordered by an integer key each.
pub struct ByKey {
    pub keys: Vec<i64>,
}

impl Ranked for ByKey {
    open spec fn size(&self) -> nat {
        self.keys@.len()
    }

    open spec fn ranks(&self, i: int, j: int) -> bool {
        self.keys@[i] <= self.keys@[j]
    }

    proof fn total(&self, i: int, j: int) {
    }

    proof fn transitive(&self, i: int, j: int, k: int) {
    }

    fn count(&self) -> (n: usize) {
        self.keys.len()
    }

    fn at_most(&self, i: usize, j: usize) -> (b: bool) {
        self.keys[i] <= self.keys[j]
    }
}

/// Does `a` stand no later than `b` in the order of bytes?
pub open spec fn bytes_at_most(a: Seq<u8>, b: Seq<u8>) -> bool
    decreases a.len(),
{
    if a.len() == 0 {
        true
    } else if b.len() == 0 {
        false
    } else if a[0] != b[0] {
        a[0] < b[0]
    } else {
        bytes_at_most(a.skip(1), b.skip(1))
    }
}

proof fn bytes_total(a: Seq<u8>, b: Seq<u8>)
    ensures
        bytes_at_most(a, b) || bytes_at_most(b, a),
    decreases a.len(),
{
    if a.len() > 0 && b.len() > 0 && a[0] == b[0] {
        bytes_total(a.skip(1), b.skip(1));
    }
}

/// A name stands no later than itself.
pub proof fn bytes_reflexive(a: Seq<u8>)
    ensures
        bytes_at_most(a, a),
{
    bytes_total(a, a);
}

proof fn bytes_transitive(a: Seq<u8>, b: Seq<u8>, c: Seq<u8>)
    requires
        bytes_at_most(a, b),
        bytes_at_most(b, c),
    ensures
        bytes_at_most(a, c),
    decreases a.len(),
{
    if a.len() > 0 && b.len() > 0 && c.len() > 0 && a[0] == b[0] && b[0] == c[0] {
        bytes_transitive(a.skip(1), b.skip(1), c.skip(1));
    }
}

fn bytes_le(a: &Vec<u8>, b: &Vec<u8>) -> (r: bool)
    ensures
        r == bytes_at_most(a@, b@),
{
    let (m, n): (usize, usize) = (a.len(), b.len());
    let mut i: usize = 0;
    assert(a@.skip(0) =~= a@ && b@.skip(0) =~= b@);
    loop
        invariant
            i <= m,
            i <= n,
            m == a@.len(),
            n == b@.len(),
            bytes_at_most(a@, b@) == bytes_at_most(a@.skip(i as int), b@.skip(i as int)),
        decreases m - i,
    {
        if i == m {
            return true;
        }
        if i == n {
            return false;
        }
        if a[i] != b[i] {
            return a[i] < b[i];
        }
        assert(a@.skip(i as int).skip(1) =~= a@.skip(i + 1));
        assert(b@.skip(i as int).skip(1) =~= b@.skip(i + 1));
        i += 1;
    }
}

/// Items ordered by the bytes of their names.
pub struct ByName {
    pub names: Vec<Vec<u8>>,
}

impl Ranked for ByName {
    open spec fn size(&self) -> nat {
        self.names@.len()
    }

    open spec fn ranks(&self, i: int, j: int) -> bool {
        bytes_at_most(self.names@[i]@, self.names@[j]@)
    }

    proof fn total(&self, i: int, j: int) {
        bytes_total(self.names@[i]@, self.names@[j]@);
    }

    proof fn transitive(&self, i: int, j: int, k: int) {
        bytes_transitive(self.names@[i]@, self.names@[j]@, self.names@[k]@);
    }

    fn count(&self) -> (n: usize) {
        self.names.len()
    }

    fn at_most(&self, i: usize, j: usize) -> (b: bool) {
        bytes_le(&self.names[i], &self.names[j])
    }
}

/// One name stands before another where they first differ in a byte that is smaller,
/// or where the other goes on when it ends.
pub proof fn names_are_ordered_by_first_difference(a: Seq<u8>, b: Seq<u8>, k: int)
    requires
        0 <= k <= a.len(),
        k <= b.len(),
        forall|i: int| 0 <= i < k ==> a[i] == b[i],
        k < a.len() && k < b.len() ==> a[k] != b[k],
    ensures
        bytes_at_most(a, b) <==> k == a.len() || (k < b.len() && a[k] < b[k]),
    decreases k,
{
    if k > 0 {
        let (x, y) = (a.skip(1), b.skip(1));
        assert forall|i: int| 0 <= i < k - 1 implies x[i] == y[i] by {
            assert(a[i + 1] == b[i + 1]);
        }
        names_are_ordered_by_first_difference(x, y, k - 1);
    }
}

} // verus!
