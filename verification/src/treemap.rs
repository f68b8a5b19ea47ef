//! The disk map's layout plan: blocks ordered by size, largest first (ties
//! keep their order), then split recursively into two runs whose sizes are
//! as even as the order allows. The plan says, for every split, which share
//! of the rectangle the first run gets; turning shares into coordinates is
//! left to the renderer.

use vstd::prelude::*;
use crate::model::{small_sizes, DiskBlock};

verus! {

/// Block `a` comes before block `b`: larger first, then lower index first.
pub open spec fn before(sizes: Seq<i32>, a: int, b: int) -> bool {
    sizes[a] > sizes[b] || (sizes[a] == sizes[b] && a < b)
}

/// Where `x` goes in an ordered run: after the leading entries that come
/// before it.
pub open spec fn insert_pos(r: Seq<usize>, sizes: Seq<i32>, x: int) -> nat
    decreases r.len(),
{
    if r.len() > 0 && before(sizes, r[0] as int, x) {
        1 + insert_pos(r.drop_first(), sizes, x)
    } else {
        0
    }
}

/// The first `n` block indices in display order, built by inserting each
/// index in turn after the ones that come before it.
pub open spec fn size_order(sizes: Seq<i32>, n: nat) -> Seq<usize>
    decreases n,
{
    if n == 0 {
        seq![]
    } else {
        let r = size_order(sizes, (n - 1) as nat);
        r.insert(insert_pos(r, sizes, n - 1) as int, (n - 1) as usize)
    }
}

/// `r` lists each of `0..n` once, each before every later one in the order.
pub open spec fn is_size_order(sizes: Seq<i32>, r: Seq<usize>, n: nat) -> bool {
    &&& r.len() == n
    &&& forall|p: int| 0 <= p < n ==> (#[trigger] r[p] as int) < n
    &&& forall|p: int, q: int| 0 <= p < q < n ==> before(sizes, #[trigger] r[p] as int, #[trigger] r[q] as int)
}

/// Where a new index goes in a display order, and why.
proof fn lemma_insert_pos_props(r: Seq<usize>, sizes: Seq<i32>, x: int)
    ensures
        insert_pos(r, sizes, x) <= r.len(),
        forall|p: int| 0 <= p < insert_pos(r, sizes, x) ==> before(sizes, #[trigger] r[p] as int, x),
        insert_pos(r, sizes, x) < r.len() ==> !before(sizes, r[insert_pos(r, sizes, x) as int] as int, x),
    decreases r.len(),
{
    if r.len() > 0 && before(sizes, r[0] as int, x) {
        let t = r.drop_first();
        lemma_insert_pos_props(t, sizes, x);
        assert forall|p: int| 0 <= p < insert_pos(r, sizes, x) implies before(sizes, #[trigger] r[p] as int, x) by {
            if p > 0 {
                assert(r[p] == t[p - 1]);
            }
        }
    }
}

/// The display order lists every block once, larger blocks first and equal
/// sizes in their input order (what a stable sort by descending size
/// gives).
pub proof fn lemma_size_order_sorted(sizes: Seq<i32>, n: nat)
    requires
        n <= sizes.len(),
        n <= usize::MAX,
    ensures
        is_size_order(sizes, size_order(sizes, n), n),
    decreases n,
{
    if n > 0 {
        let r = size_order(sizes, (n - 1) as nat);
        lemma_size_order_sorted(sizes, (n - 1) as nat);
        let x = (n - 1) as int;
        let k = insert_pos(r, sizes, x);
        lemma_insert_pos_props(r, sizes, x);
        let s = size_order(sizes, n);
        assert(s == r.insert(k as int, x as usize));
        r.insert_ensures(k as int, x as usize);
        // Everything after position k comes after x: the entry at k does not
        // come before x, the run is ordered, and the order is total.
        assert forall|q: int| k <= q < r.len() implies before(sizes, x, #[trigger] r[q] as int) by {
            let y = r[k as int] as int;
            assert(!before(sizes, y, x));
            assert(y != x);
            if q > k {
                assert(before(sizes, y, r[q] as int));
            }
        }
        assert forall|p: int, q: int| 0 <= p < q < n implies before(sizes, #[trigger] s[p] as int, #[trigger] s[q] as int) by {
            if q < k {
                assert(s[p] == r[p] && s[q] == r[q]);
                assert(before(sizes, r[p] as int, r[q] as int));
            } else if q == k {
                assert(s[p] == r[p]);
                assert(s[q] as int == x);
                assert(before(sizes, r[p] as int, x));
            } else if p < k {
                assert(s[p] == r[p] && s[q] == r[q - 1]);
                assert(before(sizes, r[p] as int, r[q - 1] as int));
            } else if p == k {
                assert(s[q] == r[q - 1]);
                assert(s[p] as int == x);
                assert(before(sizes, x, r[q - 1] as int));
            } else {
                assert(s[p] == r[p - 1] && s[q] == r[q - 1]);
                assert(before(sizes, r[p - 1] as int, r[q - 1] as int));
            }
        }
        assert forall|p: int| 0 <= p < n implies (#[trigger] s[p] as int) < n by {
            if p < k {
                assert(s[p] == r[p]);
            } else if p > k {
                assert(s[p] == r[p - 1]);
            }
        }
    }
}

/// The position at which index `x` joins the display order `r`.
fn insert_pos_exec(r: &Vec<usize>, sizes: &Vec<i32>, x: usize) -> (k: usize)
    requires
        forall|p: int| 0 <= p < r@.len() ==> (#[trigger] r@[p] as int) < sizes@.len(),
        x < sizes@.len(),
    ensures
        k == insert_pos(r@, sizes@, x as int),
{
    let mut k: usize = 0;
    assert(r@.skip(0) =~= r@);
    while k < r.len()
        invariant
            k <= r@.len(),
            forall|p: int| 0 <= p < r@.len() ==> (#[trigger] r@[p] as int) < sizes@.len(),
            x < sizes@.len(),
            insert_pos(r@, sizes@, x as int) == k + insert_pos(r@.skip(k as int), sizes@, x as int),
        decreases r@.len() - k,
    {
        let y = r[k];
        let sy = sizes[y];
        let sx = sizes[x];
        if !(sy > sx || (sy == sx && y < x)) {
            return k;
        }
        assert(r@.skip(k as int).drop_first() =~= r@.skip(k + 1));
        k = k + 1;
    }
    k
}

/// Block indices ordered for display: larger sizes first, equal sizes in
/// their input order.
pub fn sort_by_size_desc(sizes: &Vec<i32>) -> (r: Vec<usize>)
    ensures
        r@ == size_order(sizes@, sizes@.len()),
        is_size_order(sizes@, r@, sizes@.len()),
{
    let n = sizes.len();
    let mut r: Vec<usize> = Vec::new();
    let mut i: usize = 0;
    while i < n
        invariant
            n == sizes@.len(),
            i <= n,
            r@ == size_order(sizes@, i as nat),
        decreases n - i,
    {
        proof {
            lemma_size_order_sorted(sizes@, i as nat);
        }
        let k = insert_pos_exec(&r, sizes, i);
        proof {
            lemma_insert_pos_props(r@, sizes@, i as int);
        }
        r.insert(k, i);
        i = i + 1;
    }
    proof {
        lemma_size_order_sorted(sizes@, n as nat);
    }
    r
}


/// The sum of a run of sizes.
pub open spec fn sum_sizes(s: Seq<i32>) -> int
    decreases s.len(),
{
    if s.len() == 0 { 0 } else { sum_sizes(s.drop_last()) + s.last() }
}

/// `t / 2` rounded toward zero, as Rust's `i32` division does.
pub open spec fn half_toward_zero(t: int) -> int {
    if t >= 0 { t / 2 } else { -((-t) / 2) }
}

/// Searching from position `i`: the first split after a position below the
/// last where the running sum reaches `half`, or 1 when there is none.
pub open spec fn split_search(s: Seq<i32>, half: int, i: nat) -> nat
    decreases s.len() - i,
{
    if i + 1 >= s.len() {
        1
    } else if sum_sizes(s.take((i + 1) as int)) >= half {
        i + 1
    } else {
        split_search(s, half, i + 1)
    }
}

/// Where a run is split: just after the first entry (not the last) at which
/// the running sum reaches half the total.
pub open spec fn split_point(s: Seq<i32>) -> nat {
    split_search(s, half_toward_zero(sum_sizes(s)), 0)
}

/// The split point lies strictly inside the run.
pub proof fn lemma_split_search_range(s: Seq<i32>, half: int, i: nat)
    requires
        s.len() >= 2,
    ensures
        1 <= split_search(s, half, i) < s.len(),
    decreases s.len() - i,
{
    if i + 1 < s.len() && sum_sizes(s.take((i + 1) as int)) < half {
        lemma_split_search_range(s, half, i + 1);
    }
}

/// The layout plan of a run of blocks, given as (index, size) in display
/// order.
#[derive(Debug)]
pub enum Treemap {
    /// No blocks.
    Empty,
    /// One block fills the rectangle.
    Leaf(usize),
    /// The sizes add up to zero: the blocks keep the geometry they had.
    Keep,
    /// The first run takes `left_size / total_size` of the rectangle (along
    /// its longer side), the second run the rest.
    Split { left_size: i32, total_size: i32, left: Box<Treemap>, right: Box<Treemap> },
}

/// The sizes of a run of (index, size) items.
pub open spec fn sizes_of(items: Seq<(usize, i32)>) -> Seq<i32> {
    items.map_values(|p: (usize, i32)| p.1)
}

/// The plan for a run of blocks in display order.
pub open spec fn plan_of(items: Seq<(usize, i32)>) -> Treemap
    decreases items.len(),
{
    if items.len() == 0 {
        Treemap::Empty
    } else if items.len() == 1 {
        Treemap::Leaf(items[0].0)
    } else {
        let s = sizes_of(items);
        let total = sum_sizes(s);
        if total == 0 {
            Treemap::Keep
        } else {
            let k = split_point(s);
            proof {
                lemma_split_search_range(s, half_toward_zero(total), 0);
            }
            Treemap::Split {
                left_size: sum_sizes(s.take(k as int)) as i32,
                total_size: total as i32,
                left: Box::new(plan_of(items.take(k as int))),
                right: Box::new(plan_of(items.skip(k as int))),
            }
        }
    }
}

/// Every running sum of the run fits in an `i32`.
pub open spec fn prefixes_fit(s: Seq<i32>) -> bool {
    forall|k: int| 0 <= k <= s.len() ==> i32::MIN <= #[trigger] sum_sizes(s.take(k)) <= i32::MAX
}

/// The sums the planner adds up never leave the range of `i32` (on any
/// other input the `i32` additions overflow).
pub open spec fn plan_fits(items: Seq<(usize, i32)>) -> bool
    decreases items.len(),
{
    if items.len() <= 1 {
        true
    } else {
        let s = sizes_of(items);
        let total = sum_sizes(s);
        &&& prefixes_fit(s)
        &&& (total == 0 || {
            let k = split_point(s);
            if 1 <= k < items.len() {
                plan_fits(items.take(k as int)) && plan_fits(items.skip(k as int))
            } else {
                false
            }
        })
    }
}

/// A running sum over one more item.
proof fn lemma_sum_take_step(s: Seq<i32>, i: int)
    requires
        0 <= i < s.len(),
    ensures
        sum_sizes(s.take(i + 1)) == sum_sizes(s.take(i)) + s[i],
{
    assert(s.take(i + 1).drop_last() =~= s.take(i));
}

/// The sum of the first `upto` sizes of the run.
fn run_total(items: &Vec<(usize, i32)>, upto: usize) -> (t: i32)
    requires
        upto <= items@.len(),
        prefixes_fit(sizes_of(items@)),
    ensures
        t == sum_sizes(sizes_of(items@).take(upto as int)),
{
    let ghost s = sizes_of(items@);
    let mut t: i32 = 0;
    let mut i: usize = 0;
    assert(s.take(0) =~= Seq::<i32>::empty());
    while i < upto
        invariant
            upto <= items@.len(),
            s == sizes_of(items@),
            prefixes_fit(s),
            i <= upto,
            t == sum_sizes(s.take(i as int)),
        decreases upto - i,
    {
        proof {
            lemma_sum_take_step(s, i as int);
            assert(i32::MIN <= sum_sizes(s.take(i + 1)) <= i32::MAX);
        }
        t = t + items[i].1;
        i = i + 1;
    }
    t
}

/// The split point of a run, searched from its start.
fn find_split(items: &Vec<(usize, i32)>, half: i32) -> (k: usize)
    requires
        items@.len() >= 2,
        prefixes_fit(sizes_of(items@)),
    ensures
        k == split_search(sizes_of(items@), half as int, 0),
{
    let ghost s = sizes_of(items@);
    let n = items.len();
    let mut acc: i32 = 0;
    let mut i: usize = 0;
    assert(s.take(0) =~= Seq::<i32>::empty());
    loop
        invariant
            n == items@.len(),
            n >= 2,
            s == sizes_of(items@),
            prefixes_fit(s),
            i < n,
            acc == sum_sizes(s.take(i as int)),
            split_search(s, half as int, 0) == split_search(s, half as int, i as nat),
        decreases n - i,
    {
        if i + 1 >= n {
            return 1;
        }
        proof {
            lemma_sum_take_step(s, i as int);
            assert(i32::MIN <= sum_sizes(s.take(i + 1)) <= i32::MAX);
        }
        acc = acc + items[i].1;
        if acc >= half {
            return i + 1;
        }
        i = i + 1;
    }
}

/// The items from `lo` up to `hi`.
fn sub_items(items: &Vec<(usize, i32)>, lo: usize, hi: usize) -> (r: Vec<(usize, i32)>)
    requires
        lo <= hi <= items@.len(),
    ensures
        r@ == items@.subrange(lo as int, hi as int),
{
    let mut r: Vec<(usize, i32)> = Vec::new();
    let mut i = lo;
    while i < hi
        invariant
            lo <= i <= hi,
            hi <= items@.len(),
            r@ == items@.subrange(lo as int, i as int),
        decreases hi - i,
    {
        r.push(items[i]);
        i = i + 1;
        assert(r@ =~= items@.subrange(lo as int, i as int));
    }
    r
}

/// The layout plan of a run of blocks given as (index, size) in display
/// order.
pub fn plan(items: &Vec<(usize, i32)>) -> (t: Treemap)
    requires
        plan_fits(items@),
    ensures
        t == plan_of(items@),
    decreases items@.len(),
{
    let n = items.len();
    if n == 0 {
        return Treemap::Empty;
    }
    if n == 1 {
        return Treemap::Leaf(items[0].0);
    }
    let ghost s = sizes_of(items@);
    assert(s.take(n as int) =~= s);
    let total = run_total(items, n);
    if total == 0 {
        return Treemap::Keep;
    }
    let half: i32 = if total >= 0 { total / 2 } else { -((-(total as i64)) / 2) as i32 };
    let k = find_split(items, half);
    proof {
        lemma_split_search_range(s, half as int, 0);
    }
    let left_size = run_total(items, k);
    let left_items = sub_items(items, 0, k);
    let right_items = sub_items(items, k, n);
    assert(left_items@ =~= items@.take(k as int));
    assert(right_items@ =~= items@.skip(k as int));
    let left = plan(&left_items);
    let right = plan(&right_items);
    Treemap::Split { left_size, total_size: total, left: Box::new(left), right: Box::new(right) }
}


/// The blocks' (index, size) pairs in display order.
pub open spec fn layout_items(sizes: Seq<i32>) -> Seq<(usize, i32)> {
    size_order(sizes, sizes.len()).map_values(|i: usize| (i, sizes[i as int]))
}

/// The sizes of the blocks, in order.
pub open spec fn block_sizes(blocks: Seq<DiskBlock>) -> Seq<i32> {
    blocks.map_values(|b: DiskBlock| b.size)
}

/// The disk map's plan for blocks of the given sizes.
pub open spec fn layout_for(sizes: Seq<i32>) -> Treemap {
    plan_of(layout_items(sizes))
}

/// The disk map's plan for the given blocks.
pub open spec fn layout_of(blocks: Seq<DiskBlock>) -> Treemap {
    layout_for(block_sizes(blocks))
}


/// Sums of small sizes stay small.
proof fn lemma_sum_bounded(s: Seq<i32>)
    requires
        forall|i: int| 0 <= i < s.len() ==> 0 <= #[trigger] s[i] < 0x100_0000,
    ensures
        0 <= sum_sizes(s) <= s.len() * 0xFF_FFFF,
    decreases s.len(),
{
    if s.len() > 0 {
        let t = s.drop_last();
        assert forall|i: int| 0 <= i < t.len() implies 0 <= #[trigger] t[i] < 0x100_0000 by {
            assert(t[i] == s[i]);
        }
        lemma_sum_bounded(t);
    }
}

/// A run of small sizes fits the planner's `i32` sums.
proof fn lemma_bounded_fits(items: Seq<(usize, i32)>)
    requires
        small_sizes(sizes_of(items)),
    ensures
        plan_fits(items),
    decreases items.len(),
{
    if items.len() > 1 {
        let s = sizes_of(items);
        assert forall|k: int| 0 <= k <= s.len() implies i32::MIN <= #[trigger] sum_sizes(s.take(k)) <= i32::MAX by {
            let t = s.take(k);
            assert forall|i: int| 0 <= i < t.len() implies 0 <= #[trigger] t[i] < 0x100_0000 by {
                assert(t[i] == s[i]);
            }
            lemma_sum_bounded(t);
        }
        let total = sum_sizes(s);
        if total != 0 {
            let k = split_point(s);
            lemma_split_search_range(s, half_toward_zero(total), 0);
            let l = items.take(k as int);
            let r = items.skip(k as int);
            assert(sizes_of(l) =~= s.take(k as int));
            assert(sizes_of(r) =~= s.skip(k as int));
            lemma_bounded_fits(l);
            lemma_bounded_fits(r);
        }
    }
}

/// Bounded block sizes keep every sum the planner forms in range.
pub proof fn lemma_layout_fits(sizes: Seq<i32>)
    requires
        small_sizes(sizes),
    ensures
        plan_fits(layout_items(sizes)),
{
    let n = sizes.len();
    lemma_size_order_sorted(sizes, n);
    let items = layout_items(sizes);
    assert(sizes_of(items) =~= size_order(sizes, n).map_values(|i: usize| sizes[i as int]));
    lemma_bounded_fits(items);
}

/// The disk map's layout plan for `blocks`: the blocks in display order,
/// split recursively as `plan` does.
pub fn compute_treemap_layout(blocks: &Vec<DiskBlock>) -> (t: Treemap)
    requires
        plan_fits(layout_items(block_sizes(blocks@))),
    ensures
        t == layout_of(blocks@),
{
    let n = blocks.len();
    let mut sizes: Vec<i32> = Vec::new();
    let mut i: usize = 0;
    while i < n
        invariant
            n == blocks@.len(),
            i <= n,
            sizes@ == block_sizes(blocks@).take(i as int),
        decreases n - i,
    {
        sizes.push(blocks[i].size);
        i = i + 1;
        assert(sizes@ =~= block_sizes(blocks@).take(i as int));
    }
    assert(sizes@ =~= block_sizes(blocks@));
    let order = sort_by_size_desc(&sizes);
    let mut items: Vec<(usize, i32)> = Vec::new();
    let mut j: usize = 0;
    while j < n
        invariant
            n == sizes@.len(),
            order@.len() == n,
            forall|p: int| 0 <= p < n ==> (#[trigger] order@[p] as int) < n,
            j <= n,
            items@ == order@.take(j as int).map_values(|x: usize| (x, sizes@[x as int])),
        decreases n - j,
    {
        let x = order[j];
        items.push((x, sizes[x]));
        j = j + 1;
        assert(items@ =~= order@.take(j as int).map_values(|x: usize| (x, sizes@[x as int])));
    }
    assert(order@.take(n as int) =~= order@);
    assert(items@ =~= layout_items(sizes@));
    plan(&items)
}

/// Whether two plans are the same.
pub fn same_plan(a: &Treemap, b: &Treemap) -> (r: bool)
    ensures
        r == (*a == *b),
    decreases a,
{
    match a {
        Treemap::Empty => matches!(b, Treemap::Empty),
        Treemap::Keep => matches!(b, Treemap::Keep),
        Treemap::Leaf(i) => match b {
            Treemap::Leaf(j) => *i == *j,
            _ => false,
        },
        Treemap::Split { left_size: l1, total_size: t1, left: a1, right: b1 } => match b {
            Treemap::Split { left_size: l2, total_size: t2, left: a2, right: b2 } => {
                *l1 == *l2 && *t1 == *t2 && same_plan(&**a1, &**a2) && same_plan(&**b1, &**b2)
            },
            _ => false,
        },
    }
}

/// The block indices a plan places, left to right.
pub open spec fn placed(t: Treemap) -> Seq<usize>
    decreases t,
{
    match t {
        Treemap::Empty => seq![],
        Treemap::Leaf(i) => seq![i],
        Treemap::Keep => seq![],
        Treemap::Split { left, right, .. } => placed(*left) + placed(*right),
    }
}

/// With positive sizes the plan places every block of the run exactly once,
/// in display order.
pub proof fn lemma_plan_places_all(items: Seq<(usize, i32)>)
    requires
        forall|i: int| 0 <= i < items.len() ==> (#[trigger] items[i]).1 > 0,
    ensures
        placed(plan_of(items)) == items.map_values(|p: (usize, i32)| p.0),
    decreases items.len(),
{
    if items.len() == 0 {
        assert(items.map_values(|p: (usize, i32)| p.0) =~= Seq::<usize>::empty());
    } else if items.len() == 1 {
        assert(items.map_values(|p: (usize, i32)| p.0) =~= seq![items[0].0]);
    } else {
        let s = sizes_of(items);
        lemma_sum_positive(s);
        let k = split_point(s);
        lemma_split_search_range(s, half_toward_zero(sum_sizes(s)), 0);
        let l = items.take(k as int);
        let r = items.skip(k as int);
        lemma_plan_places_all(l);
        lemma_plan_places_all(r);
        assert(items.map_values(|p: (usize, i32)| p.0) =~= l.map_values(|p: (usize, i32)| p.0) + r.map_values(
            |p: (usize, i32)| p.0,
        ));
    }
}

/// A sum of positive sizes is positive when there is at least one.
proof fn lemma_sum_positive(s: Seq<i32>)
    requires
        s.len() > 0,
        forall|i: int| 0 <= i < s.len() ==> #[trigger] s[i] > 0,
    ensures
        sum_sizes(s) > 0,
    decreases s.len(),
{
    if s.len() > 1 {
        let t = s.drop_last();
        assert forall|i: int| 0 <= i < t.len() implies #[trigger] t[i] > 0 by {
            assert(t[i] == s[i]);
        }
        lemma_sum_positive(t);
        assert(s[s.len() - 1] > 0);
        assert(s.last() == s[s.len() - 1]);
    } else {
        assert(s.drop_last().len() == 0);
        assert(sum_sizes(s.drop_last()) == 0);
        assert(s.last() == s[0]);
        assert(s[0] > 0);
    }
}

/// What the split search finds: the first position `k` from `i + 1` on,
/// short of the end, whose prefix sum reaches `half`, or 1 when there is
/// none.
proof fn lemma_split_search_first(s: Seq<i32>, half: int, i: nat)
    requires
        s.len() >= 2,
        i < s.len(),
    ensures
        ({
            let k = split_search(s, half, i) as int;
            ||| (i + 1 <= k < s.len() && sum_sizes(s.take(k)) >= half
                && forall|j: int| i + 1 <= j < k ==> sum_sizes(#[trigger] s.take(j)) < half)
            ||| (k == 1 && forall|j: int| i + 1 <= j < s.len() ==> sum_sizes(#[trigger] s.take(j)) < half)
        }),
    decreases s.len() - i,
{
    if i + 1 < s.len() && sum_sizes(s.take((i + 1) as int)) < half {
        lemma_split_search_first(s, half, i + 1);
    }
}

/// Each split of a run of two or more blocks with a nonzero total comes
/// right after the shortest prefix, short of the whole run, whose size sum
/// reaches half the total (rounded toward zero), or after the first block
/// when no such prefix exists; the left part is the plan of that prefix,
/// the right part the plan of the rest, and the split records the prefix's
/// size and the total.
pub proof fn lemma_split_at_first_half(items: Seq<(usize, i32)>)
    requires
        items.len() >= 2,
        sum_sizes(sizes_of(items)) != 0,
        prefixes_fit(sizes_of(items)),
    ensures
        ({
            let s = sizes_of(items);
            let total = sum_sizes(s);
            let half = if total >= 0 { total / 2 } else { -((-total) / 2) };
            match plan_of(items) {
                Treemap::Split { left_size, total_size, left, right } => exists|k: int| {
                    &&& 1 <= k < items.len()
                    &&& left_size == #[trigger] sum_sizes(s.take(k))
                    &&& total_size == total
                    &&& *left == plan_of(items.take(k))
                    &&& *right == plan_of(items.skip(k))
                    &&& forall|j: int| 1 <= j < k ==> sum_sizes(#[trigger] s.take(j)) < half
                    &&& (sum_sizes(s.take(k)) >= half
                        || forall|j: int| 1 <= j < items.len() ==> sum_sizes(#[trigger] s.take(j)) < half)
                },
                _ => false,
            }
        }),
{
    let s = sizes_of(items);
    let total = sum_sizes(s);
    let half = half_toward_zero(total);
    lemma_split_search_first(s, half, 0);
    lemma_split_search_range(s, half, 0);
    let k = split_point(s) as int;
    assert(s.take(k).len() == k);
    assert(i32::MIN <= sum_sizes(s.take(k)) <= i32::MAX);
    assert(s.take(s.len() as int) =~= s);
    assert(i32::MIN <= total <= i32::MAX);
}

} // verus!
