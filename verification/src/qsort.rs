//! Sorting a vector in place while recording where each item came from, and
//! rearranging a vector by such a record.

use core::cmp::Ordering;
use vstd::prelude::*;
use vstd::std_specs::cmp::PartialOrdSpec;

verus! {

/// `a` is strictly below `b` in the order of `T`.
pub open spec fn less<T: PartialOrd>(a: T, b: T) -> bool {
    a.partial_cmp_spec(&b) == Some(Ordering::Less)
}

/// The comparison of `T` behaves as its specification says, and `less` is a
/// strict order: nothing is below itself in both directions, and it is transitive.
pub open spec fn well_ordered<T: PartialOrd>() -> bool {
    &&& T::obeys_partial_cmp_spec()
    &&& forall|x: T, y: T| #[trigger] less(x, y) ==> !less(y, x)
    &&& forall|x: T, y: T, z: T| #[trigger] less(x, y) && #[trigger] less(y, z) ==> less(x, z)
}

/// No item between `lo` and `hi` (both included) is strictly below an earlier one.
pub open spec fn sorted_between<T: PartialOrd>(s: Seq<T>, lo: int, hi: int) -> bool {
    forall|i: int, j: int| lo <= i < j <= hi ==> !less(#[trigger] s[j], #[trigger] s[i])
}

/// No index occurs twice in `order`.
pub open spec fn distinct(order: Seq<usize>) -> bool {
    forall|i: int, j: int|
        0 <= i < order.len() && 0 <= j < order.len() && i != j ==> #[trigger] order[i]
            != #[trigger] order[j]
}

/// Whether `value` occurs in `order`.
pub open spec fn occurs(order: Seq<usize>, value: int) -> bool {
    exists|k: int| 0 <= k < order.len() && #[trigger] order[k] == value
}

/// `order` lists each of the indices `0..n` exactly once.
pub open spec fn is_permutation(order: Seq<usize>, n: int) -> bool {
    &&& order.len() == n
    &&& forall|k: int| 0 <= k < n ==> #[trigger] order[k] < n
    &&& distinct(order)
    &&& forall|v: int| 0 <= v < n ==> occurs(order, v)
}

/// A vector's items side by side with the record of where each came from.
pub struct Layout<T> {
    pub data: Seq<T>,
    pub order: Seq<usize>,
}

/// The pair at position `i` of `new` is the pair at position `j` of `old`.
pub open spec fn same_pair<T>(old: Layout<T>, j: int, new: Layout<T>, i: int) -> bool {
    &&& 0 <= j < old.data.len()
    &&& 0 <= i < new.data.len()
    &&& new.data[i] == old.data[j]
    &&& new.order[i] == old.order[j]
}

/// `q` and `p` are rearrangements of the positions below `n` that undo each
/// other and leave every position outside `lo..=hi` where it is.
pub open spec fn rearranges(q: Seq<int>, p: Seq<int>, n: int, lo: int, hi: int) -> bool {
    &&& q.len() == n
    &&& p.len() == n
    &&& forall|i: int| 0 <= i < n ==> 0 <= #[trigger] q[i] < n && p[q[i]] == i
    &&& forall|j: int| 0 <= j < n ==> 0 <= #[trigger] p[j] < n && q[p[j]] == j
    &&& forall|k: int| 0 <= k < n && !(lo <= k <= hi) ==> #[trigger] q[k] == k
}

/// `new` holds at every position `i` the pair that `old` holds at `q[i]`,
/// where `q`, undone by `p`, rearranges the positions between `lo` and `hi`.
pub open spec fn arranged_by<T>(
    old: Layout<T>,
    new: Layout<T>,
    q: Seq<int>,
    p: Seq<int>,
    lo: int,
    hi: int,
) -> bool {
    &&& rearranges(q, p, old.data.len() as int, lo, hi)
    &&& forall|i: int| 0 <= i < old.data.len() ==> same_pair(old, #[trigger] q[i], new, i)
}

/// `new` is `old` with the pairs between `lo` and `hi` permuted among
/// themselves, items and record by one and the same permutation, and
/// everything else left in place.
pub open spec fn shuffled<T>(old: Layout<T>, new: Layout<T>, lo: int, hi: int) -> bool {
    &&& old.data.len() == old.order.len()
    &&& new.data.len() == old.data.len()
    &&& new.order.len() == old.data.len()
    &&& exists|q: Seq<int>, p: Seq<int>| #[trigger] arranged_by(old, new, q, p, lo, hi)
}

/// The pair at position `i` of `new` stood somewhere between `lo` and `hi` in `old`.
pub open spec fn taken_from<T>(old: Layout<T>, new: Layout<T>, lo: int, hi: int, i: int) -> bool {
    exists|j: int| lo <= j <= hi && #[trigger] same_pair(old, j, new, i)
}

/// The pair at position `j` of `old` stands somewhere between `lo` and `hi` in `new`.
pub open spec fn moved_to<T>(old: Layout<T>, new: Layout<T>, lo: int, hi: int, j: int) -> bool {
    exists|i: int| lo <= i <= hi && #[trigger] same_pair(old, j, new, i)
}

/// What a permutation of the pairs between `lo` and `hi` keeps: the pairs
/// outside stay, every pair inside comes from inside and goes to inside, and
/// a record without repeated entries stays one.
pub open spec fn pairs_kept<T>(old: Layout<T>, new: Layout<T>, lo: int, hi: int) -> bool {
    &&& forall|k: int|
        0 <= k < old.data.len() && !(lo <= k <= hi) ==> #[trigger] same_pair(old, k, new, k)
    &&& forall|i: int|
        lo <= i <= hi && 0 <= i < old.data.len() ==> #[trigger] taken_from(old, new, lo, hi, i)
    &&& forall|j: int|
        lo <= j <= hi && 0 <= j < old.data.len() ==> #[trigger] moved_to(old, new, lo, hi, j)
    &&& distinct(old.order) ==> distinct(new.order)
}

proof fn lemma_shuffled_keeps_pairs<T>(a: Layout<T>, b: Layout<T>, lo: int, hi: int)
    requires
        shuffled(a, b, lo, hi),
    ensures
        pairs_kept(a, b, lo, hi),
{
    let (q, p) = choose|q: Seq<int>, p: Seq<int>| #[trigger] arranged_by(a, b, q, p, lo, hi);
    let n = a.data.len() as int;
    assert forall|k: int| 0 <= k < n && !(lo <= k <= hi) implies #[trigger] same_pair(
        a,
        k,
        b,
        k,
    ) by {
        assert(q[k] == k);
    }
    assert forall|i: int| lo <= i <= hi && 0 <= i < n implies #[trigger] taken_from(
        a,
        b,
        lo,
        hi,
        i,
    ) by {
        let src = q[i];
        if !(lo <= src <= hi) {
            assert(q[src] == src);
            assert(p[q[src]] == src);
            assert(p[q[i]] == i);
        }
        assert(same_pair(a, src, b, i));
    }
    assert forall|j: int| lo <= j <= hi && 0 <= j < n implies #[trigger] moved_to(
        a,
        b,
        lo,
        hi,
        j,
    ) by {
        let dst = p[j];
        if !(lo <= dst <= hi) {
            assert(q[dst] == dst);
        }
        assert(q[dst] == j);
        assert(same_pair(a, q[dst], b, dst));
    }
    if distinct(a.order) {
        assert forall|i: int, j: int|
            0 <= i < b.order.len() && 0 <= j < b.order.len() && i != j implies #[trigger] b.order[i]
            != #[trigger] b.order[j] by {
            assert(same_pair(a, q[i], b, i));
            assert(same_pair(a, q[j], b, j));
            assert(p[q[i]] == i && p[q[j]] == j);
        }
    }
}

proof fn lemma_shuffled_same<T>(a: Layout<T>, lo: int, hi: int)
    requires
        a.data.len() == a.order.len(),
    ensures
        shuffled(a, a, lo, hi),
{
    let id = Seq::new(a.data.len(), |i: int| i);
    assert(arranged_by(a, a, id, id, lo, hi));
}

/// The layout after the pairs at `x` and `y` have changed places.
pub open spec fn swapped<T>(a: Layout<T>, x: int, y: int) -> Layout<T> {
    Layout {
        data: a.data.update(x, a.data[y]).update(y, a.data[x]),
        order: a.order.update(x, a.order[y]).update(y, a.order[x]),
    }
}

/// Where the pair at `i` stands once the pairs at `x` and `y` have changed places.
pub open spec fn swap_index(x: int, y: int, i: int) -> int {
    if i == x {
        y
    } else if i == y {
        x
    } else {
        i
    }
}

proof fn lemma_shuffled_swap<T>(a: Layout<T>, b: Layout<T>, lo: int, hi: int, x: int, y: int)
    requires
        shuffled(a, b, lo, hi),
        lo <= x <= hi,
        lo <= y <= hi,
        0 <= x < a.data.len(),
        0 <= y < a.data.len(),
    ensures
        shuffled(a, swapped(b, x, y), lo, hi),
{
    let c = swapped(b, x, y);
    let n = a.data.len();
    let (q, p) = choose|q: Seq<int>, p: Seq<int>| #[trigger] arranged_by(a, b, q, p, lo, hi);
    let q2 = Seq::new(n, |i: int| q[swap_index(x, y, i)]);
    let p2 = Seq::new(n, |j: int| swap_index(x, y, p[j]));
    assert forall|i: int| 0 <= i < n implies 0 <= #[trigger] q2[i] < n && p2[q2[i]] == i
        && same_pair(a, q2[i], c, i) by {
        let src = swap_index(x, y, i);
        assert(q2[i] == q[src]);
        assert(p[q[src]] == src);
        assert(same_pair(a, q[src], b, src));
    }
    assert forall|j: int| 0 <= j < n implies 0 <= #[trigger] p2[j] < n && q2[p2[j]] == j by {
        assert(q[p[j]] == j);
    }
    assert forall|k: int| 0 <= k < n && !(lo <= k <= hi) implies #[trigger] q2[k] == k by {
        assert(q[k] == k);
    }
    assert(arranged_by(a, c, q2, p2, lo, hi));
}

proof fn lemma_shuffled_chain<T>(
    a: Layout<T>,
    b: Layout<T>,
    c: Layout<T>,
    lo1: int,
    hi1: int,
    lo2: int,
    hi2: int,
    lo: int,
    hi: int,
)
    requires
        shuffled(a, b, lo1, hi1),
        shuffled(b, c, lo2, hi2),
        lo <= lo1,
        hi1 <= hi,
        lo <= lo2,
        hi2 <= hi,
    ensures
        shuffled(a, c, lo, hi),
{
    let n = a.data.len();
    let (q1, p1) = choose|q: Seq<int>, p: Seq<int>| #[trigger] arranged_by(a, b, q, p, lo1, hi1);
    let (q2, p2) = choose|q: Seq<int>, p: Seq<int>| #[trigger] arranged_by(b, c, q, p, lo2, hi2);
    let q = Seq::new(n, |i: int| q1[q2[i]]);
    let p = Seq::new(n, |j: int| p2[p1[j]]);
    assert forall|i: int| 0 <= i < n implies 0 <= #[trigger] q[i] < n && p[q[i]] == i
        && same_pair(a, q[i], c, i) by {
        let mid = q2[i];
        assert(same_pair(b, mid, c, i));
        assert(p2[q2[i]] == i);
        assert(same_pair(a, q1[mid], b, mid));
        assert(p1[q1[mid]] == mid);
    }
    assert forall|j: int| 0 <= j < n implies 0 <= #[trigger] p[j] < n && q[p[j]] == j by {
        let mid = p1[j];
        assert(q1[p1[j]] == j);
        assert(q2[p2[mid]] == mid);
    }
    assert forall|k: int| 0 <= k < n && !(lo <= k <= hi) implies #[trigger] q[k] == k by {
        assert(q2[k] == k);
        assert(q1[k] == k);
    }
    assert(arranged_by(a, c, q, p, lo, hi));
}

/// `<[T]>::swap` on a vector: the items at `a` and `b` change places and
/// nothing else moves. Both indices must be in bounds, as the standard
/// library panics otherwise.
#[verifier::external_body]
fn swap_items<T>(items: &mut Vec<T>, a: usize, b: usize)
    requires
        a < old(items)@.len(),
        b < old(items)@.len(),
    ensures
        final(items)@ == old(items)@.update(a as int, old(items)@[b as int]).update(
            b as int,
            old(items)@[a as int],
        ),
{
    items.swap(a, b);
}

/// The layout that `data` and `order` form together.
pub open spec fn layout_of<T>(data: Seq<T>, order: Seq<usize>) -> Layout<T> {
    Layout { data: data, order: order }
}

fn swap_both<T>(data: &mut Vec<T>, order: &mut Vec<usize>, a: usize, b: usize)
    requires
        old(data)@.len() == old(order)@.len(),
        a < old(data)@.len(),
        b < old(data)@.len(),
    ensures
        layout_of(final(data)@, final(order)@) == swapped(
            layout_of(old(data)@, old(order)@),
            a as int,
            b as int,
        ),
        final(data)@.len() == old(data)@.len(),
        final(order)@.len() == old(order)@.len(),
{
    swap_items(data, a, b);
    swap_items(order, a, b);
}

/// Moves a pivot to the place it has in sorted order within `beg..=end`: the
/// items before it are strictly below it, and none of those after it is. For
/// three items or more the pivot is the median of the first, the middle and
/// the last item.
fn partition<T>(data: &mut Vec<T>, order: &mut Vec<usize>, beg: usize, end: usize) -> (piv: usize)
    where T: Clone + PartialOrd
    requires
        beg <= end < old(data)@.len(),
        old(data)@.len() == old(order)@.len(),
    ensures
        beg <= piv <= end,
        shuffled(
            layout_of(old(data)@, old(order)@),
            layout_of(final(data)@, final(order)@),
            beg as int,
            end as int,
        ),
        well_ordered::<T>() ==> forall|k: int|
            beg <= k < piv ==> less(#[trigger] final(data)@[k], final(data)@[piv as int]),
        well_ordered::<T>() ==> forall|k: int|
            piv < k <= end ==> !less(#[trigger] final(data)@[k], final(data)@[piv as int]),
{
    let ghost start = layout_of(data@, order@);
    proof {
        lemma_shuffled_same(start, beg as int, end as int);
    }
    if end - beg > 1 {
        let mid: usize = beg + (end - beg) / 2;
        if data[end] < data[beg] {
            proof {
                lemma_shuffled_swap(
                    start,
                    layout_of(data@, order@),
                    beg as int,
                    end as int,
                    beg as int,
                    end as int,
                );
            }
            swap_both(data, order, beg, end);
        }
        if data[mid] < data[end] {
            proof {
                lemma_shuffled_swap(
                    start,
                    layout_of(data@, order@),
                    beg as int,
                    end as int,
                    mid as int,
                    end as int,
                );
            }
            swap_both(data, order, mid, end);
        }
        if data[end] < data[beg] {
            proof {
                lemma_shuffled_swap(
                    start,
                    layout_of(data@, order@),
                    beg as int,
                    end as int,
                    beg as int,
                    end as int,
                );
            }
            swap_both(data, order, beg, end);
        }
    }
    let mut i: usize = beg;
    let mut j: usize = beg;
    while j < end
        invariant
            beg <= i <= j <= end < data@.len(),
            data@.len() == order@.len(),
            data@.len() == start.data.len(),
            shuffled(start, layout_of(data@, order@), beg as int, end as int),
            well_ordered::<T>() ==> forall|k: int|
                beg <= k < i ==> less(#[trigger] data@[k], data@[end as int]),
            well_ordered::<T>() ==> forall|k: int|
                i <= k < j ==> !less(#[trigger] data@[k], data@[end as int]),
        decreases end - j,
    {
        if data[j] < data[end] {
            proof {
                lemma_shuffled_swap(
                    start,
                    layout_of(data@, order@),
                    beg as int,
                    end as int,
                    i as int,
                    j as int,
                );
            }
            swap_both(data, order, i, j);
            i += 1;
        }
        j += 1;
    }
    proof {
        lemma_shuffled_swap(
            start,
            layout_of(data@, order@),
            beg as int,
            end as int,
            i as int,
            end as int,
        );
    }
    swap_both(data, order, i, end);
    i
}

fn sort_range<T>(data: &mut Vec<T>, order: &mut Vec<usize>, beg: usize, end: usize)
    where T: Clone + PartialOrd
    requires
        beg <= end < old(data)@.len(),
        old(data)@.len() == old(order)@.len(),
    ensures
        shuffled(
            layout_of(old(data)@, old(order)@),
            layout_of(final(data)@, final(order)@),
            beg as int,
            end as int,
        ),
        well_ordered::<T>() ==> sorted_between(final(data)@, beg as int, end as int),
    decreases end - beg,
{
    let ghost start = layout_of(data@, order@);
    if end > beg {
        let piv = partition(data, order, beg, end);
        let ghost parted = layout_of(data@, order@);
        if piv > beg {
            sort_range(data, order, beg, piv - 1);
        }
        let ghost left = layout_of(data@, order@);
        if piv < end {
            sort_range(data, order, piv + 1, end);
        }
        let ghost done = layout_of(data@, order@);
        proof {
            if piv == beg {
                lemma_shuffled_same(parted, beg as int, piv - 1);
            }
            if piv == end {
                lemma_shuffled_same(left, piv + 1, end as int);
            }
            lemma_shuffled_chain(
                parted,
                left,
                done,
                beg as int,
                piv - 1,
                piv + 1,
                end as int,
                beg as int,
                end as int,
            );
            lemma_shuffled_chain(
                start,
                parted,
                done,
                beg as int,
                end as int,
                beg as int,
                end as int,
                beg as int,
                end as int,
            );
            lemma_shuffled_keeps_pairs(parted, left, beg as int, piv - 1);
            lemma_shuffled_keeps_pairs(left, done, piv + 1, end as int);
            if well_ordered::<T>() {
                assert(same_pair(parted, piv as int, left, piv as int));
                assert(same_pair(left, piv as int, done, piv as int));
                let pivot = done.data[piv as int];
                assert forall|k: int| beg <= k < piv implies less(
                    #[trigger] done.data[k],
                    pivot,
                ) by {
                    assert(same_pair(left, k, done, k));
                    assert(taken_from(parted, left, beg as int, piv - 1, k));
                    let src = choose|src: int|
                        beg <= src <= piv - 1 && #[trigger] same_pair(parted, src, left, k);
                    assert(less(parted.data[src], parted.data[piv as int]));
                }
                assert forall|k: int| piv < k <= end implies !less(
                    #[trigger] done.data[k],
                    pivot,
                ) by {
                    assert(taken_from(left, done, piv + 1, end as int, k));
                    let src = choose|src: int|
                        piv + 1 <= src <= end && #[trigger] same_pair(left, src, done, k);
                    assert(same_pair(parted, src, left, src));
                    assert(!less(parted.data[src], parted.data[piv as int]));
                }
                assert forall|a: int, b: int| beg <= a < b <= end implies !less(
                    #[trigger] done.data[b],
                    #[trigger] done.data[a],
                ) by {
                    if b < piv {
                        assert(same_pair(left, a, done, a));
                        assert(same_pair(left, b, done, b));
                        assert(!less(left.data[b], left.data[a]));
                    } else if a > piv {
                    } else if a < piv && b > piv {
                        assert(less(done.data[a], pivot));
                        assert(!less(done.data[b], pivot));
                    } else if a < piv {
                        assert(less(done.data[a], pivot));
                    } else {
                        assert(!less(done.data[b], pivot));
                    }
                }
            }
        }
    } else {
        proof {
            lemma_shuffled_same(start, beg as int, end as int);
        }
    }
}

/// Sorting in place, with a record of the rearrangement.
pub trait QuickSort {
    /// The type of the items.
    type Item: PartialOrd;

    /// The items, in their current order.
    spec fn elements(&self) -> Seq<Self::Item>;

    /// Sorts the items in place and returns, for each position, the position
    /// that its item had before.
    ///
    /// The items are rearranged, never changed. Where the comparison of the
    /// item type is a strict order, no item ends up strictly below an earlier one.
    fn quicksort(&mut self) -> (order: Vec<usize>)
        ensures
            final(self).elements().len() == old(self).elements().len(),
            is_permutation(order@, old(self).elements().len() as int),
            forall|i: int|
                0 <= i < order@.len() ==> #[trigger] final(self).elements()[i] == old(
                    self,
                ).elements()[order@[i] as int],
            well_ordered::<Self::Item>() ==> sorted_between(
                final(self).elements(),
                0,
                final(self).elements().len() - 1,
            ),
    ;
}

/// Rearranging in place by a list of positions.
pub trait Permute<T> {
    /// The items, in their current order.
    spec fn items(&self) -> Seq<T>;

    /// Rearranges the items so that position `i` holds what position
    /// `order[i]` held before. An `order` that does not list every position
    /// exactly once is refused and nothing moves.
    fn permute_by(&mut self, order: &Vec<usize>) -> (r: Result<(), ()>)
        ensures
            r is Ok <==> is_permutation(order@, old(self).items().len() as int),
            final(self).items().len() == old(self).items().len(),
            r is Ok ==> forall|i: int|
                0 <= i < order@.len() ==> #[trigger] final(self).items()[i] == old(
                    self,
                ).items()[order@[i] as int],
            r is Err ==> final(self).items() == old(self).items(),
    ;
}

impl<T> QuickSort for Vec<T> where T: Clone + PartialOrd {
    type Item = T;

    open spec fn elements(&self) -> Seq<T> {
        self@
    }

    fn quicksort(&mut self) -> (order: Vec<usize>) {
        let n = self.len();
        let mut order: Vec<usize> = Vec::with_capacity(n);
        let mut i: usize = 0;
        while i < n
            invariant
                i <= n,
                n == self@.len(),
                order@.len() == i,
                forall|k: int| 0 <= k < i ==> #[trigger] order@[k] == k,
            decreases n - i,
        {
            order.push(i);
            i += 1;
        }
        let ghost start = layout_of(self@, order@);
        if n > 0 {
            sort_range(self, &mut order, 0, n - 1);
        } else {
            proof {
                lemma_shuffled_same(start, 0, -1);
            }
        }
        proof {
            let done = layout_of(self@, order@);
            lemma_shuffled_keeps_pairs(start, done, 0, n - 1);
            assert(distinct(start.order));
            assert forall|k: int| 0 <= k < n implies #[trigger] done.order[k] < n && done.data[k]
                == start.data[done.order[k] as int] by {
                assert(taken_from(start, done, 0, n - 1, k));
            }
            assert forall|v: int| 0 <= v < n implies occurs(done.order, v) by {
                assert(moved_to(start, done, 0, n - 1, v));
                let at = choose|at: int| 0 <= at <= n - 1 && #[trigger] same_pair(start, v, done, at);
                assert(done.order[at] == v);
            }
        }
        order
    }
}

fn position_of(order: &Vec<usize>, from: usize, value: usize) -> (r: Option<usize>)
    ensures
        match r {
            Some(j) => from <= j < order@.len() && order@[j as int] == value && forall|k: int|
                from <= k < j ==> #[trigger] order@[k] != value,
            None => forall|k: int| from <= k < order@.len() ==> #[trigger] order@[k] != value,
        },
{
    let mut j: usize = from;
    while j < order.len()
        invariant
            from <= j,
            forall|k: int| from <= k < j && k < order@.len() ==> #[trigger] order@[k] != value,
        decreases order@.len() - j,
    {
        if order[j] == value {
            return Some(j);
        }
        j += 1;
    }
    None
}

/// Whether `order` lists every position below `len` exactly once.
fn lists_every_position(order: &Vec<usize>, len: usize) -> (r: bool)
    ensures
        r == is_permutation(order@, len as int),
{
    if len != order.len() {
        return false;
    }
    let mut used: Vec<bool> = Vec::new();
    let mut c: usize = 0;
    while c < len
        invariant
            c <= len,
            used@.len() == c,
            forall|v: int| 0 <= v < c ==> !#[trigger] used@[v],
        decreases len - c,
    {
        used.push(false);
        c += 1;
    }
    let mut k: usize = 0;
    while k < len
        invariant
            k <= len,
            len == order@.len(),
            used@.len() == len,
            forall|m: int| 0 <= m < k ==> #[trigger] order@[m] < len,
            forall|m: int, n: int| 0 <= m < k && 0 <= n < k && m != n ==> #[trigger] order@[m]
                != #[trigger] order@[n],
            forall|m: int| 0 <= m < k ==> used@[#[trigger] order@[m] as int],
            forall|v: int|
                0 <= v < len && #[trigger] used@[v] ==> exists|m: int|
                    0 <= m < k && #[trigger] order@[m] == v,
        decreases len - k,
    {
        let v = order[k];
        if v < len && !used[v] {
            used.set(v, true);
        } else {
            proof {
                if v < len {
                    let m = choose|m: int| 0 <= m < k && #[trigger] order@[m] == v;
                    assert(order@[m] == order@[k as int]);
                }
            }
            return false;
        }
        k += 1;
    }
    let mut c: usize = 0;
    while c < len
        invariant
            c <= len,
            used@.len() == len,
            len == order@.len(),
            forall|v: int| 0 <= v < c ==> occurs(order@, v),
            forall|m: int| 0 <= m < len ==> used@[#[trigger] order@[m] as int],
            forall|m: int| 0 <= m < len ==> #[trigger] order@[m] < len,
            forall|v: int|
                0 <= v < len && #[trigger] used@[v] ==> exists|m: int|
                    0 <= m < len && #[trigger] order@[m] == v,
        decreases len - c,
    {
        if !used[c] {
            proof {
                if occurs(order@, c as int) {
                    let m = choose|m: int| 0 <= m < order@.len() && #[trigger] order@[m] == c;
                    assert(used@[order@[m] as int]);
                }
            }
            return false;
        }
        proof {
            let m = choose|m: int| 0 <= m < len && #[trigger] order@[m] == c;
            assert(order@[m] == c);
        }
        c += 1;
    }
    true
}

impl<T> Permute<T> for Vec<T> where T: Clone + PartialOrd {
    open spec fn items(&self) -> Seq<T> {
        self@
    }

    fn permute_by(&mut self, order: &Vec<usize>) -> (r: Result<(), ()>) {
        let len = self.len();
        if !lists_every_position(order, len) {
            return Err(());
        }
        let mut places: Vec<usize> = Vec::with_capacity(len);
        let mut c: usize = 0;
        while c < len
            invariant
                c <= len,
                len == order@.len(),
                places@.len() == c,
                forall|k: int| 0 <= k < c ==> #[trigger] places@[k] == order@[k],
            decreases len - c,
        {
            places.push(order[c]);
            c += 1;
        }
        let mut i: usize = 0;
        while i < len
            invariant
                i <= len,
                len == order@.len(),
                len == self@.len(),
                len == old(self)@.len(),
                places@.len() == len,
                forall|k: int| 0 <= k < i ==> #[trigger] self@[k] == old(self)@[order@[k] as int],
                forall|k: int| 0 <= k < len ==> #[trigger] order@[k] < len,
                forall|k: int| i <= k < len ==> i <= #[trigger] places@[k] < len,
                forall|k: int|
                    i <= k < len ==> self@[#[trigger] places@[k] as int] == old(
                        self,
                    )@[order@[k] as int],
                forall|m: int, n: int|
                    i <= m < len && i <= n < len && m != n ==> #[trigger] places@[m]
                        != #[trigger] places@[n],
            decreases len - i,
        {
            let target = places[i];
            if i != target {
                let ghost before = self@;
                let ghost earlier = places@;
                swap_items(self, i, target);
                match position_of(&places, i + 1, i) {
                    Some(j) => {
                        places.set(j, target);
                        proof {
                            assert forall|k: int| i + 1 <= k < len implies i + 1
                                <= #[trigger] places@[k] < len && self@[places@[k] as int] == old(
                                self,
                            )@[order@[k] as int] by {
                                assert(earlier[k] != earlier[i as int]);
                                if k != j {
                                    assert(earlier[k] != earlier[j as int]);
                                }
                            }
                            assert forall|m: int, n: int|
                                i + 1 <= m < len && i + 1 <= n < len && m != n implies #[trigger] places@[m]
                                != #[trigger] places@[n] by {
                                assert(earlier[m] != earlier[i as int]);
                                assert(earlier[n] != earlier[i as int]);
                                assert(earlier[m] != earlier[n]);
                            }
                        }
                    },
                    None => {
                        proof {
                            assert forall|k: int| i + 1 <= k < len implies i + 1
                                <= #[trigger] places@[k] < len && self@[places@[k] as int] == old(
                                self,
                            )@[order@[k] as int] by {
                                assert(earlier[k] != earlier[i as int]);
                            }
                        }
                    },
                }
            } else {
                proof {
                    assert forall|k: int| i + 1 <= k < len implies i + 1 <= #[trigger] places@[k] by {
                        assert(places@[k] != places@[i as int]);
                    }
                }
            }
            i += 1;
        }
        Ok(())
    }
}

/// The built-in comparison of `i32` is a strict order.
pub proof fn lemma_i32_well_ordered()
    ensures
        well_ordered::<i32>(),
{
}

} // verus!
