use vstd::prelude::*;
use vstd::set_lib::*;

verus! {

/// A closed range `[from_id, to_id]` of message ids.
#[derive(Debug, Clone, Copy, PartialEq, Eq, Structural)]
pub struct QueueIndexRange {
    pub from_id: i64,
    pub to_id: i64,
}

impl QueueIndexRange {
    /// The ids the range covers.
    pub open spec fn has(self, x: int) -> bool {
        self.from_id <= x <= self.to_id
    }

    pub open spec fn ids(self) -> Set<int> {
        set_int_range(self.from_id as int, self.to_id as int + 1)
    }
}

/// Each range is non-empty, the ranges are sorted, and between two ranges at
/// least one id is missing, so no two of them could be merged.
pub open spec fn ranges_well_formed(s: Seq<QueueIndexRange>) -> bool {
    &&& forall|i: int| 0 <= i < s.len() ==> #[trigger] s[i].from_id <= s[i].to_id
    &&& forall|i: int, j: int|
        0 <= i < j < s.len() ==> #[trigger] s[i].to_id + 1 < #[trigger] s[j].from_id
}

/// The ids that a sequence of ranges covers.
pub open spec fn ranges_ids(s: Seq<QueueIndexRange>) -> Set<int> {
    Set::new(|x: int| exists|i: int| 0 <= i < s.len() && #[trigger] s[i].has(x))
}

/// Sum of the lengths of the ranges.
pub open spec fn ranges_count(s: Seq<QueueIndexRange>) -> int
    decreases s.len(),
{
    if s.len() == 0 {
        0
    } else {
        ranges_count(s.drop_last()) + (s.last().to_id - s.last().from_id + 1)
    }
}

/// The ids of well-formed ranges form a finite set whose size is the sum of
/// the lengths of the ranges.
pub proof fn lemma_ranges_count(s: Seq<QueueIndexRange>)
    requires
        ranges_well_formed(s),
    ensures
        ranges_ids(s).finite(),
        ranges_ids(s).len() == ranges_count(s),
    decreases s.len(),
{
    if s.len() == 0 {
        assert(ranges_ids(s) =~= Set::<int>::empty());
    } else {
        let p = s.drop_last();
        let last = s.last();
        assert(ranges_well_formed(p));
        lemma_ranges_count(p);
        lemma_int_range(last.from_id as int, last.to_id as int + 1);
        assert forall|x: int| ranges_ids(s).contains(x) <==> (ranges_ids(p) + last.ids()).contains(
            x,
        ) by {
            if ranges_ids(s).contains(x) {
                let i = choose|i: int| 0 <= i < s.len() && #[trigger] s[i].has(x);
                if i < s.len() - 1 {
                    assert(p[i] == s[i]);
                    assert(p[i].has(x));
                }
            }
            if ranges_ids(p).contains(x) {
                let i = choose|i: int| 0 <= i < p.len() && #[trigger] p[i].has(x);
                assert(s[i] == p[i]);
                assert(s[i].has(x));
            }
            if last.ids().contains(x) {
                assert(s[s.len() - 1] == last);
                assert(s[s.len() - 1].has(x));
            }
        }
        assert(ranges_ids(s) =~= ranges_ids(p) + last.ids());
        assert forall|x: int| ranges_ids(p).contains(x) implies !last.ids().contains(x) by {
            let i = choose|i: int| 0 <= i < p.len() && #[trigger] p[i].has(x);
            assert(s[i] == p[i]);
            assert(s[i].to_id + 1 < s[s.len() - 1].from_id);
        }
        assert(ranges_ids(p).disjoint(last.ids()));
        lemma_set_disjoint_lens(ranges_ids(p), last.ids());
    }
}

/// `i` is the first range that `x` falls inside or right after; `s.len()`
/// when `x` comes after every range with a gap.
pub open spec fn is_position(s: Seq<QueueIndexRange>, i: int, x: int) -> bool {
    &&& 0 <= i <= s.len()
    &&& forall|j: int| 0 <= j < i ==> #[trigger] s[j].to_id + 1 < x
    &&& i < s.len() ==> x <= s[i].to_id + 1
}

proof fn lemma_push(s: Seq<QueueIndexRange>, x: int)
    requires
        ranges_well_formed(s),
        is_position(s, s.len() as int, x),
        i64::MIN <= x <= i64::MAX,
    ensures
        ranges_well_formed(s.push(QueueIndexRange { from_id: x as i64, to_id: x as i64 })),
        ranges_ids(s.push(QueueIndexRange { from_id: x as i64, to_id: x as i64 }))
            == ranges_ids(s).insert(x),
{
    let r = QueueIndexRange { from_id: x as i64, to_id: x as i64 };
    let n = s.push(r);
    assert forall|a: int, b: int| 0 <= a < b < n.len() implies #[trigger] n[a].to_id + 1
        < #[trigger] n[b].from_id by {
        if b == s.len() {
            assert(n[a] == s[a]);
        } else {
            assert(n[a] == s[a] && n[b] == s[b]);
        }
    }
    assert forall|y: int| ranges_ids(n).contains(y) <==> ranges_ids(s).insert(x).contains(y) by {
        if ranges_ids(n).contains(y) {
            let k = choose|k: int| 0 <= k < n.len() && #[trigger] n[k].has(y);
            if k < s.len() {
                assert(s[k].has(y));
            }
        }
        if ranges_ids(s).contains(y) {
            let k = choose|k: int| 0 <= k < s.len() && #[trigger] s[k].has(y);
            assert(n[k].has(y));
        }
        if y == x {
            assert(n[s.len() as int].has(y));
        }
    }
    assert(ranges_ids(n) =~= ranges_ids(s).insert(x));
}

/// `x` lies right before range `i`, which grows down to take it.
proof fn lemma_grow_down(s: Seq<QueueIndexRange>, i: int, x: int)
    requires
        ranges_well_formed(s),
        is_position(s, i, x),
        i < s.len(),
        x + 1 == s[i].from_id,
        i64::MIN <= x,
    ensures
        ranges_well_formed(s.update(i, QueueIndexRange { from_id: x as i64, to_id: s[i].to_id })),
        ranges_ids(s.update(i, QueueIndexRange { from_id: x as i64, to_id: s[i].to_id }))
            == ranges_ids(s).insert(x),
{
    let r = QueueIndexRange { from_id: x as i64, to_id: s[i].to_id };
    let n = s.update(i, r);
    assert forall|a: int| 0 <= a < n.len() implies #[trigger] n[a].from_id <= n[a].to_id by {
        assert(s[a].from_id <= s[a].to_id);
        assert(s[i].from_id <= s[i].to_id);
    }
    assert forall|a: int, b: int| 0 <= a < b < n.len() implies #[trigger] n[a].to_id + 1
        < #[trigger] n[b].from_id by {
        assert(s[a].to_id + 1 < s[b].from_id);
        if b == i {
            assert(s[a].to_id + 1 < x);
        }
    }
    assert forall|y: int| ranges_ids(n).contains(y) <==> ranges_ids(s).insert(x).contains(y) by {
        if ranges_ids(n).contains(y) {
            let k = choose|k: int| 0 <= k < n.len() && #[trigger] n[k].has(y);
            if k != i || y != x {
                assert(s[k].has(y));
            }
        }
        if ranges_ids(s).contains(y) {
            let k = choose|k: int| 0 <= k < s.len() && #[trigger] s[k].has(y);
            assert(n[k].has(y));
        }
        if y == x {
            assert(n[i].has(y));
        }
    }
    assert(ranges_ids(n) =~= ranges_ids(s).insert(x));
}

/// `x` lies in the gap before range `i` without touching it: a new range.
proof fn lemma_insert_single(s: Seq<QueueIndexRange>, i: int, x: int)
    requires
        ranges_well_formed(s),
        is_position(s, i, x),
        i < s.len(),
        x + 1 < s[i].from_id,
        i64::MIN <= x <= i64::MAX,
    ensures
        ranges_well_formed(s.insert(i, QueueIndexRange { from_id: x as i64, to_id: x as i64 })),
        ranges_ids(s.insert(i, QueueIndexRange { from_id: x as i64, to_id: x as i64 }))
            == ranges_ids(s).insert(x),
{
    let r = QueueIndexRange { from_id: x as i64, to_id: x as i64 };
    let n = s.insert(i, r);
    assert forall|a: int| 0 <= a < n.len() implies #[trigger] n[a].from_id <= n[a].to_id by {
        if a < i {
            assert(n[a] == s[a]);
        } else if a > i {
            assert(n[a] == s[a - 1]);
        }
    }
    assert forall|a: int, b: int| 0 <= a < b < n.len() implies #[trigger] n[a].to_id + 1
        < #[trigger] n[b].from_id by {
        if b < i {
            assert(n[a] == s[a] && n[b] == s[b]);
        } else if b == i {
            assert(n[a] == s[a]);
        } else if a < i {
            assert(n[a] == s[a] && n[b] == s[b - 1]);
            assert(s[a].to_id + 1 < s[b - 1].from_id);
        } else if a == i {
            assert(n[b] == s[b - 1]);
            if b - 1 > i {
                assert(s[i].to_id + 1 < s[b - 1].from_id);
            }
        } else {
            assert(n[a] == s[a - 1] && n[b] == s[b - 1]);
            assert(s[a - 1].to_id + 1 < s[b - 1].from_id);
        }
    }
    assert forall|y: int| ranges_ids(n).contains(y) <==> ranges_ids(s).insert(x).contains(y) by {
        if ranges_ids(n).contains(y) {
            let k = choose|k: int| 0 <= k < n.len() && #[trigger] n[k].has(y);
            if k < i {
                assert(s[k].has(y));
            } else if k > i {
                assert(s[k - 1].has(y));
            }
        }
        if ranges_ids(s).contains(y) {
            let k = choose|k: int| 0 <= k < s.len() && #[trigger] s[k].has(y);
            if k < i {
                assert(n[k].has(y));
            } else {
                assert(n[k + 1].has(y));
            }
        }
        if y == x {
            assert(n[i].has(y));
        }
    }
    assert(ranges_ids(n) =~= ranges_ids(s).insert(x));
}

/// `x` lies right after range `i` and leaves a gap before the next one.
proof fn lemma_grow_up(s: Seq<QueueIndexRange>, i: int, x: int)
    requires
        ranges_well_formed(s),
        0 <= i < s.len(),
        x == s[i].to_id + 1,
        i + 1 < s.len() ==> x + 1 < s[i + 1].from_id,
        x <= i64::MAX,
    ensures
        ranges_well_formed(s.update(i, QueueIndexRange { from_id: s[i].from_id, to_id: x as i64 })),
        ranges_ids(s.update(i, QueueIndexRange { from_id: s[i].from_id, to_id: x as i64 }))
            == ranges_ids(s).insert(x),
{
    let r = QueueIndexRange { from_id: s[i].from_id, to_id: x as i64 };
    let n = s.update(i, r);
    assert forall|a: int| 0 <= a < n.len() implies #[trigger] n[a].from_id <= n[a].to_id by {
        assert(s[a].from_id <= s[a].to_id);
    }
    assert forall|a: int, b: int| 0 <= a < b < n.len() implies #[trigger] n[a].to_id + 1
        < #[trigger] n[b].from_id by {
        assert(s[a].to_id + 1 < s[b].from_id);
        if a == i && b > i + 1 {
            assert(s[i + 1].to_id + 1 < s[b].from_id);
            assert(s[i + 1].from_id <= s[i + 1].to_id);
        }
    }
    assert forall|y: int| ranges_ids(n).contains(y) <==> ranges_ids(s).insert(x).contains(y) by {
        if ranges_ids(n).contains(y) {
            let k = choose|k: int| 0 <= k < n.len() && #[trigger] n[k].has(y);
            if k != i || y != x {
                assert(s[k].has(y));
            }
        }
        if ranges_ids(s).contains(y) {
            let k = choose|k: int| 0 <= k < s.len() && #[trigger] s[k].has(y);
            assert(n[k].has(y));
        }
        if y == x {
            assert(n[i].has(y));
        }
    }
    assert(ranges_ids(n) =~= ranges_ids(s).insert(x));
}

/// `x` fills the one-id gap between ranges `i` and `i + 1`, which merge.
proof fn lemma_merge(s: Seq<QueueIndexRange>, i: int, x: int)
    requires
        ranges_well_formed(s),
        0 <= i,
        i + 1 < s.len(),
        x == s[i].to_id + 1,
        x + 1 == s[i + 1].from_id,
    ensures
        ranges_well_formed(
            s.update(i, QueueIndexRange { from_id: s[i].from_id, to_id: s[i + 1].to_id }).remove(
                i + 1,
            ),
        ),
        ranges_ids(
            s.update(i, QueueIndexRange { from_id: s[i].from_id, to_id: s[i + 1].to_id }).remove(
                i + 1,
            ),
        ) == ranges_ids(s).insert(x),
{
    let r = QueueIndexRange { from_id: s[i].from_id, to_id: s[i + 1].to_id };
    let n = s.update(i, r).remove(i + 1);
    assert(s[i + 1].from_id <= s[i + 1].to_id);
    assert(s[i].from_id <= s[i].to_id);
    assert forall|a: int| 0 <= a < n.len() implies #[trigger] n[a].from_id <= n[a].to_id by {
        if a < i {
            assert(n[a] == s[a]);
        } else if a > i {
            assert(n[a] == s[a + 1]);
        }
    }
    assert forall|a: int, b: int| 0 <= a < b < n.len() implies #[trigger] n[a].to_id + 1
        < #[trigger] n[b].from_id by {
        if b < i {
            assert(n[a] == s[a] && n[b] == s[b]);
        } else if b == i {
            assert(n[a] == s[a]);
            assert(s[a].to_id + 1 < s[i].from_id);
        } else if a < i {
            assert(n[a] == s[a] && n[b] == s[b + 1]);
            assert(s[a].to_id + 1 < s[b + 1].from_id);
        } else if a == i {
            assert(n[b] == s[b + 1]);
            assert(s[i + 1].to_id + 1 < s[b + 1].from_id);
        } else {
            assert(n[a] == s[a + 1] && n[b] == s[b + 1]);
            assert(s[a + 1].to_id + 1 < s[b + 1].from_id);
        }
    }
    assert forall|y: int| ranges_ids(n).contains(y) <==> ranges_ids(s).insert(x).contains(y) by {
        if ranges_ids(n).contains(y) {
            let k = choose|k: int| 0 <= k < n.len() && #[trigger] n[k].has(y);
            if k < i {
                assert(s[k].has(y));
            } else if k > i {
                assert(s[k + 1].has(y));
            } else if y <= s[i].to_id {
                assert(s[i].has(y));
            } else if y >= s[i + 1].from_id {
                assert(s[i + 1].has(y));
            }
        }
        if ranges_ids(s).contains(y) {
            let k = choose|k: int| 0 <= k < s.len() && #[trigger] s[k].has(y);
            if k < i {
                assert(n[k].has(y));
            } else if k <= i + 1 {
                assert(n[i].has(y));
            } else {
                assert(n[k - 1].has(y));
            }
        }
        if y == x {
            assert(n[i].has(y));
        }
    }
    assert(ranges_ids(n) =~= ranges_ids(s).insert(x));
}

/// The distinct ids of a sequence.
pub open spec fn ids_set(ids: Seq<i64>) -> Set<int> {
    Set::new(|x: int| exists|k: int| 0 <= k < ids.len() && #[trigger] ids[k] as int == x)
}

/// Inserting one more id adds just that id to the distinct ids.
pub proof fn lemma_ids_set_push(ids: Seq<i64>, id: i64)
    ensures
        ids_set(ids.push(id)) == ids_set(ids).insert(id as int),
{
    let n = ids.push(id);
    assert forall|x: int| ids_set(n).contains(x) <==> ids_set(ids).insert(id as int).contains(x) by {
        if ids_set(n).contains(x) {
            let k = choose|k: int| 0 <= k < n.len() && #[trigger] n[k] as int == x;
            if k < ids.len() {
                assert(ids[k] as int == x);
            }
        }
        if ids_set(ids).contains(x) {
            let k = choose|k: int| 0 <= k < ids.len() && #[trigger] ids[k] as int == x;
            assert(n[k] as int == x);
        }
        if x == id as int {
            assert(n[ids.len() as int] as int == x);
        }
    }
    assert(ids_set(n) =~= ids_set(ids).insert(id as int));
}

proof fn lemma_consecutive(ids: Seq<i64>, k: int)
    requires
        forall|j: int| 0 < j < ids.len() ==> #[trigger] ids[j] == ids[j - 1] + 1,
        0 <= k < ids.len(),
    ensures
        ids[k] == ids[0] + k,
    decreases k,
{
    if k > 0 {
        lemma_consecutive(ids, k - 1);
        assert(ids[k] == ids[k - 1] + 1);
    }
}

/// Well-formed ranges that cover one unbroken run of ids are a single range.
proof fn lemma_unbroken_run_is_one_range(s: Seq<QueueIndexRange>, lo: int, hi: int)
    requires
        ranges_well_formed(s),
        lo <= hi,
        ranges_ids(s) == set_int_range(lo, hi + 1),
    ensures
        s.len() == 1,
        s[0].from_id == lo,
        s[0].to_id == hi,
{
    assert(ranges_ids(s).contains(lo));
    if s.len() >= 2 {
        assert(s[0].from_id <= s[0].to_id);
        assert(s[1].from_id <= s[1].to_id);
        assert(s[0].to_id + 1 < s[1].from_id);
        assert(s[0].has(s[0].to_id as int));
        assert(ranges_ids(s).contains(s[0].to_id as int));
        assert(s[1].has(s[1].from_id as int));
        assert(ranges_ids(s).contains(s[1].from_id as int));
        let gap = s[0].to_id + 1;
        assert(set_int_range(lo, hi + 1).contains(gap));
        let k = choose|k: int| 0 <= k < s.len() && #[trigger] s[k].has(gap);
        if k > 1 {
            assert(s[1].to_id + 1 < s[k].from_id);
        }
        assert(false);
    }
    assert(s[0].from_id <= s[0].to_id);
    assert(s[0].has(s[0].from_id as int));
    assert(s[0].has(s[0].to_id as int));
    assert(ranges_ids(s).contains(s[0].from_id as int));
    assert(ranges_ids(s).contains(s[0].to_id as int));
    assert(set_int_range(lo, hi + 1).contains(hi));
    assert(ranges_ids(s).contains(hi));
    assert(s[0].has(lo));
    assert(s[0].has(hi));
}

/// Ids inserted one after another, each one more than the last, are counted
/// one for each insertion and held as a single range from the first to the
/// last.
pub proof fn lemma_sequential_ids(ids: Seq<i64>, q: QueueWithIntervals)
    requires
        q.wf(),
        q@ == ids_set(ids),
        ids.len() > 0,
        forall|j: int| 0 < j < ids.len() ==> #[trigger] ids[j] == ids[j - 1] + 1,
    ensures
        q@.finite(),
        q.count() == q@.len(),
        q.count() == ids.len(),
        q.ranges().len() == 1,
        q.ranges()[0] == (QueueIndexRange { from_id: ids[0], to_id: ids.last() }),
{
    let lo = ids[0] as int;
    let hi = ids.last() as int;
    lemma_consecutive(ids, ids.len() - 1);
    assert forall|x: int| ids_set(ids).contains(x) <==> set_int_range(lo, hi + 1).contains(x) by {
        if ids_set(ids).contains(x) {
            let k = choose|k: int| 0 <= k < ids.len() && #[trigger] ids[k] as int == x;
            lemma_consecutive(ids, k);
        }
        if set_int_range(lo, hi + 1).contains(x) {
            let k = x - lo;
            lemma_consecutive(ids, k);
            assert(ids[k] as int == x);
        }
    }
    assert(ids_set(ids) =~= set_int_range(lo, hi + 1));
    lemma_unbroken_run_is_one_range(q.ranges(), lo, hi);
    lemma_ranges_count(q.ranges());
    lemma_int_range(lo, hi + 1);
}

/// Whatever order ids arrive in, and however often each one repeats, the set
/// counts each distinct id once, and its ranges stay sorted, disjoint and
/// impossible to merge.
pub proof fn lemma_any_order_counts_distinct(ids: Seq<i64>, q: QueueWithIntervals)
    requires
        q.wf(),
        q@ == ids_set(ids),
    ensures
        q@.finite(),
        q.count() == ids_set(ids).len(),
        q@.len() == ids_set(ids).len(),
        ranges_well_formed(q.ranges()),
{
    lemma_ranges_count(q.ranges());
}

/// A set of message ids, held as the fewest sorted ranges that cover it.
pub struct QueueWithIntervals {
    intervals: Vec<QueueIndexRange>,
}

impl View for QueueWithIntervals {
    type V = Set<int>;

    open spec fn view(&self) -> Set<int> {
        ranges_ids(self.ranges())
    }
}

impl QueueWithIntervals {
    /// The ranges, in ascending order.
    pub closed spec fn ranges(&self) -> Seq<QueueIndexRange> {
        self.intervals@
    }

    pub open spec fn wf(&self) -> bool {
        ranges_well_formed(self.ranges())
    }

    /// Number of ids in the set.
    pub open spec fn count(&self) -> int {
        ranges_count(self.ranges())
    }

    pub fn new() -> (r: Self)
        ensures
            r.wf(),
            r@ == Set::<int>::empty(),
            r.ranges().len() == 0,
    {
        let r = QueueWithIntervals { intervals: Vec::new() };
        assert(r@ =~= Set::<int>::empty());
        r
    }

    /// Whether `id` falls inside `r` or right after it.
    fn reaches(r: QueueIndexRange, id: i64) -> (b: bool)
        ensures
            b == (id <= r.to_id + 1),
    {
        id == i64::MIN || id - 1 <= r.to_id
    }

    /// Index of the first range that `id` falls inside or right after; the
    /// number of ranges if there is none. The last range is looked at first,
    /// as ids mostly arrive in ascending order.
    fn position_for(&self, id: i64) -> (i: usize)
        requires
            self.wf(),
        ensures
            is_position(self.ranges(), i as int, id as int),
    {
        let len = self.intervals.len();
        if len == 0 || !Self::reaches(self.intervals[len - 1], id) {
            proof {
                let s = self.intervals@;
                assert forall|j: int| 0 <= j < len implies #[trigger] s[j].to_id + 1 < id by {
                    if j < len - 1 {
                        assert(s[j].to_id + 1 < s[len - 1].from_id);
                        assert(s[len - 1].from_id <= s[len - 1].to_id);
                    }
                }
            }
            return len;
        }
        let mut lo: usize = 0;
        let mut hi: usize = len - 1;
        while lo < hi
            invariant
                self.wf(),
                len == self.intervals@.len(),
                lo <= hi < len,
                forall|j: int| 0 <= j < lo ==> #[trigger] self.intervals@[j].to_id + 1 < id,
                id <= self.intervals@[hi as int].to_id + 1,
            decreases hi - lo,
        {
            let mid = lo + (hi - lo) / 2;
            if Self::reaches(self.intervals[mid], id) {
                hi = mid;
            } else {
                proof {
                    let s = self.intervals@;
                    assert forall|j: int| 0 <= j < mid + 1 implies #[trigger] s[j].to_id + 1
                        < id by {
                        if j < mid {
                            assert(s[j].to_id + 1 < s[mid as int].from_id);
                            assert(s[mid as int].from_id <= s[mid as int].to_id);
                        }
                    }
                }
                lo = mid + 1;
            }
        }
        lo
    }

    /// Whether `id` is in the set.
    pub fn contains(&self, id: i64) -> (r: bool)
        requires
            self.wf(),
        ensures
            r == self@.contains(id as int),
    {
        let i = self.position_for(id);
        if i < self.intervals.len() && self.intervals[i].from_id <= id && id <= self.intervals[i].to_id {
            proof {
                assert(self.intervals@[i as int].has(id as int));
            }
            true
        } else {
            proof {
                let s = self.intervals@;
                if self@.contains(id as int) {
                    let k = choose|k: int| 0 <= k < s.len() && #[trigger] s[k].has(id as int);
                    if k > i {
                        assert(s[i as int].to_id + 1 < s[k].from_id);
                        assert(s[i as int].from_id <= s[i as int].to_id);
                    }
                    assert(false);
                }
            }
            false
        }
    }

    /// Adds `id` to the set, merging it into the ranges next to it.
    pub fn enqueue(&mut self, id: i64)
        requires
            old(self).wf(),
        ensures
            final(self).wf(),
            final(self)@ == old(self)@.insert(id as int),
    {
        let ghost s = self.intervals@;
        let len = self.intervals.len();
        let i = self.position_for(id);
        if i == len {
            proof {
                lemma_push(s, id as int);
            }
            self.intervals.push(QueueIndexRange { from_id: id, to_id: id });
            return;
        }
        let r = self.intervals[i];
        if id < r.from_id {
            if id + 1 == r.from_id {
                proof {
                    lemma_grow_down(s, i as int, id as int);
                }
                self.intervals[i] = QueueIndexRange { from_id: id, to_id: r.to_id };
            } else {
                proof {
                    lemma_insert_single(s, i as int, id as int);
                }
                self.intervals.insert(i, QueueIndexRange { from_id: id, to_id: id });
            }
        } else if id <= r.to_id {
            proof {
                assert(s[i as int].has(id as int));
                assert(self@ =~= old(self)@.insert(id as int));
            }
        } else if i + 1 < len && self.intervals[i + 1].from_id - 1 == id {
            let merged = QueueIndexRange { from_id: r.from_id, to_id: self.intervals[i + 1].to_id };
            proof {
                lemma_merge(s, i as int, id as int);
            }
            self.intervals[i] = merged;
            self.intervals.remove(i + 1);
            proof {
                assert(self.intervals@ =~= s.update(i as int, merged).remove(i + 1));
            }
        } else {
            proof {
                if i + 1 < len {
                    assert(r.to_id + 1 < s[i + 1].from_id);
                }
                lemma_grow_up(s, i as int, id as int);
            }
            self.intervals[i] = QueueIndexRange { from_id: r.from_id, to_id: id };
        }
    }

    /// Number of ids in the set, or `cap` when there are more.
    pub fn capped_count(&self, cap: u128) -> (r: u128)
        requires
            self.wf(),
            cap <= u64::MAX as u128 + 1,
        ensures
            self@.finite(),
            r == if self@.len() <= cap { self@.len() as int } else { cap as int },
    {
        let mut sum: u128 = 0;
        let mut i: usize = 0;
        proof {
            lemma_ranges_count(self.intervals@);
            assert(self.intervals@.take(0) =~= Seq::<QueueIndexRange>::empty());
        }
        while i < self.intervals.len()
            invariant
                self.wf(),
                cap <= u64::MAX as u128 + 1,
                self@.finite(),
                self@.len() == ranges_count(self.intervals@),
                i <= self.intervals@.len(),
                sum == if ranges_count(self.intervals@.take(i as int)) <= cap {
                    ranges_count(self.intervals@.take(i as int))
                } else {
                    cap as int
                },
            decreases self.intervals@.len() - i,
        {
            let r = self.intervals[i];
            proof {
                let s = self.intervals@;
                assert(s.take(i as int + 1).drop_last() =~= s.take(i as int));
                assert(r.from_id <= r.to_id);
                assert(ranges_count(s.take(i as int)) >= 0) by {
                    assert(ranges_well_formed(s.take(i as int)));
                    lemma_ranges_count(s.take(i as int));
                }
            }
            let width = (r.to_id as i128 - r.from_id as i128 + 1) as u128;
            if sum + width >= cap {
                sum = cap;
            } else {
                sum = sum + width;
            }
            i = i + 1;
        }
        proof {
            assert(self.intervals@.take(i as int) =~= self.intervals@);
        }
        sum
    }

    /// Number of ids in the set; `u64::MAX` for a set of every `i64`.
    pub fn len(&self) -> (r: u64)
        requires
            self.wf(),
        ensures
            r == if self@.len() <= u64::MAX { self@.len() as int } else { u64::MAX as int },
    {
        self.capped_count(u64::MAX as u128) as u64
    }

    /// Whether the set holds no id.
    pub fn is_empty(&self) -> (r: bool)
        requires
            self.wf(),
        ensures
            r == (self@.len() == 0),
            self@.finite(),
    {
        proof {
            lemma_ranges_count(self.intervals@);
            if self.intervals@.len() > 0 {
                let s = self.intervals@;
                assert(s[0].from_id <= s[0].to_id);
                assert(s[0].has(s[0].from_id as int));
                assert(self@.contains(s[0].from_id as int));
                vstd::set_lib::lemma_set_empty_equivalency_len(self@);
            } else {
                assert(self@ =~= Set::<int>::empty());
            }
        }
        self.intervals.len() == 0
    }

    /// The ranges, ascending.
    pub fn intervals(&self) -> (r: &[QueueIndexRange])
        ensures
            r@ == self.ranges(),
    {
        self.intervals.as_slice()
    }

    /// A copy of the set, as it goes on the wire.
    pub fn get_snapshot(&self) -> (r: QueueWithIntervals)
        ensures
            r.ranges() == self.ranges(),
            r@ == self@,
    {
        let mut copy: Vec<QueueIndexRange> = Vec::with_capacity(self.intervals.len());
        let mut i: usize = 0;
        while i < self.intervals.len()
            invariant
                i <= self.intervals@.len(),
                copy@ == self.intervals@.take(i as int),
            decreases self.intervals@.len() - i,
        {
            copy.push(self.intervals[i]);
            i = i + 1;
            proof {
                assert(copy@ =~= self.intervals@.take(i as int));
            }
        }
        proof {
            assert(copy@ =~= self.intervals@);
        }
        QueueWithIntervals { intervals: copy }
    }
}

} // verus!
