use vstd::prelude::*;
use crate::table::EventKeys;

verus! {

/// A group of the aggregated table: a distributor and a month.
pub type GroupKey = (i64, i64);

/// `a` comes before `b`: by distributor, then by month.
pub open spec fn key_lt(a: GroupKey, b: GroupKey) -> bool {
    a.0 < b.0 || (a.0 == b.0 && a.1 < b.1)
}

/// The keys ascend by distributor, then month, with no key twice.
pub open spec fn strictly_sorted(keys: Seq<GroupKey>) -> bool {
    forall|i: int, j: int| 0 <= i < j < keys.len() ==> key_lt(#[trigger] keys[i], #[trigger] keys[j])
}

/// The group of row `j` of an event table.
pub open spec fn row_key(distributor: Seq<i64>, month: Seq<i64>, j: int) -> GroupKey {
    (distributor[j], month[j])
}

/// `k` is the group of some row of the event table.
pub open spec fn is_row_key(distributor: Seq<i64>, month: Seq<i64>, k: GroupKey) -> bool {
    exists|j: int| 0 <= j < distributor.len() && k == #[trigger] row_key(distributor, month, j)
}

/// Whether `a` comes before `b`.
pub fn key_before(a: GroupKey, b: GroupKey) -> (r: bool)
    ensures
        r == key_lt(a, b),
{
    a.0 < b.0 || (a.0 == b.0 && a.1 < b.1)
}

/// The first position of sorted `keys` whose key does not come before `k`.
pub fn lower_bound(keys: &Vec<GroupKey>, k: GroupKey) -> (p: usize)
    requires
        strictly_sorted(keys@),
    ensures
        p <= keys@.len(),
        forall|i: int| 0 <= i < p ==> key_lt(#[trigger] keys@[i], k),
        forall|i: int| p <= i < keys@.len() ==> !key_lt(#[trigger] keys@[i], k),
{
    let mut lo: usize = 0;
    let mut hi: usize = keys.len();
    while lo < hi
        invariant
            strictly_sorted(keys@),
            lo <= hi <= keys@.len(),
            forall|i: int| 0 <= i < lo ==> key_lt(#[trigger] keys@[i], k),
            forall|i: int| hi <= i < keys@.len() ==> !key_lt(#[trigger] keys@[i], k),
        decreases hi - lo,
    {
        let mid: usize = lo + (hi - lo) / 2;
        if key_before(keys[mid], k) {
            assert forall|i: int| 0 <= i <= mid implies key_lt(#[trigger] keys@[i], k) by {
                if i < mid {
                    assert(key_lt(keys@[i], keys@[mid as int]));
                }
            }
            lo = mid + 1;
        } else {
            assert forall|i: int| mid <= i < keys@.len() implies !key_lt(#[trigger] keys@[i], k) by {
                if i > mid {
                    assert(key_lt(keys@[mid as int], keys@[i]));
                }
            }
            hi = mid;
        }
    }
    lo
}

/// The groups of an event table: the distinct (distributor, month) pairs of
/// its rows, ascending by distributor and then month.
pub fn group_keys(distributor: &Vec<i64>, month: &Vec<i64>) -> (keys: Vec<GroupKey>)
    requires
        distributor@.len() == month@.len(),
    ensures
        strictly_sorted(keys@),
        forall|j: int| 0 <= j < distributor@.len() ==> keys@.contains(#[trigger] row_key(distributor@, month@, j)),
        forall|g: int| 0 <= g < keys@.len() ==> is_row_key(distributor@, month@, #[trigger] keys@[g]),
{
    let mut keys: Vec<GroupKey> = Vec::new();
    let ghost mut src: Seq<int> = Seq::empty();
    let mut j: usize = 0;
    while j < distributor.len()
        invariant
            distributor@.len() == month@.len(),
            j <= distributor@.len(),
            strictly_sorted(keys@),
            src.len() == keys@.len(),
            forall|g: int| 0 <= g < keys@.len() ==> 0 <= #[trigger] src[g] < j && keys@[g] == row_key(distributor@, month@, src[g]),
            forall|i: int| 0 <= i < j ==> keys@.contains(#[trigger] row_key(distributor@, month@, i)),
        decreases distributor@.len() - j,
    {
        let k: GroupKey = (distributor[j], month[j]);
        assert(k == row_key(distributor@, month@, j as int));
        let p = lower_bound(&keys, k);
        if p < keys.len() && keys[p].0 == k.0 && keys[p].1 == k.1 {
            assert(keys@[p as int] == k);
        } else {
            let ghost before = keys@;
            keys.insert(p, k);
            proof {
                src = src.insert(p as int, j as int);
                assert forall|a: int, b: int| 0 <= a < b < keys@.len() implies key_lt(#[trigger] keys@[a], #[trigger] keys@[b]) by {
                    if b < p {
                    } else if b == p {
                    } else if a < p {
                        assert(keys@[b] == before[b - 1]);
                        if b - 1 > p {
                            assert(key_lt(before[p as int], before[b - 1]));
                        }
                    } else if a == p {
                        assert(keys@[b] == before[b - 1]);
                        assert(!key_lt(before[b - 1], k));
                        if b - 1 > p {
                            assert(key_lt(before[p as int], before[b - 1]));
                        }
                    } else {
                        assert(keys@[a] == before[a - 1]);
                        assert(keys@[b] == before[b - 1]);
                    }
                }
                assert forall|i: int| 0 <= i <= j implies keys@.contains(#[trigger] row_key(distributor@, month@, i)) by {
                    if i == j {
                        assert(keys@[p as int] == k);
                    } else {
                        let g = choose|g: int| 0 <= g < before.len() && before[g] == row_key(distributor@, month@, i);
                        if g < p {
                            assert(keys@[g] == before[g]);
                        } else {
                            assert(keys@[g + 1] == before[g]);
                        }
                    }
                }
            }
        }
        j += 1;
    }
    proof {
        assert forall|g: int| 0 <= g < keys@.len() implies is_row_key(distributor@, month@, #[trigger] keys@[g]) by {
            assert(0 <= src[g] < distributor@.len());
            assert(keys@[g] == row_key(distributor@, month@, src[g]));
        }
    }
    keys
}

/// For each row of an event table, the position in `keys` of its group.
pub fn group_of_rows(keys: &Vec<GroupKey>, distributor: &Vec<i64>, month: &Vec<i64>) -> (r: Vec<usize>)
    requires
        distributor@.len() == month@.len(),
        strictly_sorted(keys@),
        forall|j: int| 0 <= j < distributor@.len() ==> keys@.contains(#[trigger] row_key(distributor@, month@, j)),
    ensures
        r@.len() == distributor@.len(),
        forall|j: int| 0 <= j < r@.len() ==> #[trigger] r@[j] < keys@.len() && keys@[r@[j] as int]
            == row_key(distributor@, month@, j),
{
    let mut r: Vec<usize> = Vec::new();
    let mut j: usize = 0;
    while j < distributor.len()
        invariant
            distributor@.len() == month@.len(),
            strictly_sorted(keys@),
            forall|i: int| 0 <= i < distributor@.len() ==> keys@.contains(#[trigger] row_key(distributor@, month@, i)),
            j <= distributor@.len(),
            r@.len() == j,
            forall|i: int| 0 <= i < j ==> #[trigger] r@[i] < keys@.len() && keys@[r@[i] as int]
                == row_key(distributor@, month@, i),
        decreases distributor@.len() - j,
    {
        let k: GroupKey = (distributor[j], month[j]);
        let p = lower_bound(keys, k);
        proof {
            assert(keys@.contains(row_key(distributor@, month@, j as int)));
            let g = choose|g: int| 0 <= g < keys@.len() && keys@[g] == k;
            assert(!key_lt(keys@[g], k));
            assert(g >= p);
            if g > p {
                assert(key_lt(keys@[p as int], keys@[g]));
            }
            assert(keys@[p as int] == k);
        }
        r.push(p);
        j += 1;
    }
    r
}

/// The conversions and the rows of one distributor.
#[derive(Debug, PartialEq, Eq, Structural, Clone, Copy)]
pub struct Tally {
    pub converted: u64,
    pub rows: u64,
}

/// The rows of distributor `d`.
pub open spec fn rows_of(distributor: Seq<i64>, d: int) -> nat
    decreases distributor.len(),
{
    if distributor.len() == 0 {
        0
    } else {
        rows_of(distributor.drop_last(), d) + if distributor.last() == d { 1nat } else { 0nat }
    }
}

/// The rows of distributor `d` on which a sale was made.
pub open spec fn converted_of(distributor: Seq<i64>, converted: Seq<bool>, d: int) -> nat
    decreases distributor.len(),
{
    if distributor.len() == 0 || converted.len() == 0 {
        0
    } else {
        converted_of(distributor.drop_last(), converted.drop_last(), d) + if distributor.last() == d
            && converted.last() {
            1nat
        } else {
            0nat
        }
    }
}

proof fn lemma_counts_bounded(distributor: Seq<i64>, converted: Seq<bool>, d: int)
    requires
        distributor.len() == converted.len(),
    ensures
        converted_of(distributor, converted, d) <= rows_of(distributor, d) <= distributor.len(),
    decreases distributor.len(),
{
    if distributor.len() > 0 {
        lemma_counts_bounded(distributor.drop_last(), converted.drop_last(), d);
    }
}

/// For each distributor `d` from `1` to `trials`, at position `d - 1`, its
/// conversions and rows over the whole event table, whatever their month.
pub fn conversion_tallies(distributor: &Vec<i64>, converted: &Vec<bool>, trials: usize) -> (r: Vec<Tally>)
    requires
        distributor@.len() == converted@.len(),
        forall|j: int| 0 <= j < distributor@.len() ==> 1 <= #[trigger] distributor@[j] <= trials,
    ensures
        r@.len() == trials,
        forall|e: int| 0 <= e < trials ==> (#[trigger] r@[e]).converted == converted_of(distributor@, converted@, e + 1)
            && r@[e].rows == rows_of(distributor@, e + 1),
{
    let mut r: Vec<Tally> = Vec::new();
    let mut e: usize = 0;
    while e < trials
        invariant
            e <= trials,
            r@.len() == e,
            forall|i: int| 0 <= i < e ==> #[trigger] r@[i] == (Tally { converted: 0, rows: 0 }),
        decreases trials - e,
    {
        r.push(Tally { converted: 0, rows: 0 });
        e += 1;
    }
    let mut j: usize = 0;
    while j < distributor.len()
        invariant
            distributor@.len() == converted@.len(),
            forall|i: int| 0 <= i < distributor@.len() ==> 1 <= #[trigger] distributor@[i] <= trials,
            j <= distributor@.len(),
            r@.len() == trials,
            forall|e: int| 0 <= e < trials ==> (#[trigger] r@[e]).converted == converted_of(
                distributor@.take(j as int), converted@.take(j as int), e + 1)
                && r@[e].rows == rows_of(distributor@.take(j as int), e + 1),
        decreases distributor@.len() - j,
    {
        let d = distributor[j];
        let ghost dt = distributor@.take(j + 1);
        let ghost ct = converted@.take(j + 1);
        proof {
            assert(dt.drop_last() =~= distributor@.take(j as int));
            assert(ct.drop_last() =~= converted@.take(j as int));
            lemma_counts_bounded(distributor@.take(j as int), converted@.take(j as int), d as int);
        }
        let idx: usize = (d - 1) as usize;
        let old_t = r[idx];
        assert(old_t.rows <= j);
        let c: u64 = if converted[j] { old_t.converted + 1 } else { old_t.converted };
        r.set(idx, Tally { converted: c, rows: old_t.rows + 1 });
        j += 1;
    }
    proof {
        assert(distributor@.take(j as int) =~= distributor@);
        assert(converted@.take(j as int) =~= converted@);
    }
    r
}

/// How the rows of an event table fold into the aggregated table: its groups
/// in output order, the group of each row, and each distributor's tally.
pub struct GroupPlan {
    pub keys: Vec<GroupKey>,
    pub row_group: Vec<usize>,
    pub tallies: Vec<Tally>,
}

impl GroupPlan {
    /// Every group names a distributor that has a tally.
    pub open spec fn wf(&self) -> bool {
        forall|g: int| 0 <= g < self.keys@.len() ==> 1 <= (#[trigger] self.keys@[g]).0 <= self.tallies@.len()
    }

    /// The plan is that of the given event table with the given conversions.
    pub open spec fn describes(&self, distributor: Seq<i64>, month: Seq<i64>, converted: Seq<bool>) -> bool {
        &&& self.wf()
        &&& strictly_sorted(self.keys@)
        &&& forall|g: int| 0 <= g < self.keys@.len() ==> is_row_key(distributor, month, #[trigger] self.keys@[g])
        &&& forall|j: int| 0 <= j < distributor.len() ==> self.keys@.contains(#[trigger] row_key(distributor, month, j))
        &&& self.row_group@.len() == distributor.len()
        &&& forall|j: int| 0 <= j < distributor.len() ==> #[trigger] self.row_group@[j] < self.keys@.len()
            && self.keys@[self.row_group@[j] as int] == row_key(distributor, month, j)
        &&& forall|e: int| 0 <= e < self.tallies@.len() ==> (#[trigger] self.tallies@[e]).converted
            == converted_of(distributor, converted, e + 1) && self.tallies@[e].rows == rows_of(distributor, e + 1)
    }

    /// The conversion tally of group `g`: that of its distributor over all of
    /// the distributor's rows, whatever their month.
    pub fn group_tally(&self, g: usize) -> (r: Tally)
        requires
            self.wf(),
            g < self.keys@.len(),
        ensures
            r == self.tallies@[self.keys@[g as int].0 - 1],
    {
        let d = self.keys[g].0;
        assert(1 <= self.keys@[g as int].0 <= self.tallies@.len());
        let n: usize = self.tallies.len();
        let idx: usize = (d - 1) as usize;
        assert(idx == d - 1);
        self.tallies[idx]
    }
}

/// The plan of the aggregated table of an event table of `trials` trials
/// whose rows name distributors `1` to `trials`, with `converted` telling on
/// which rows a sale was made.
pub fn plan_groups(events: &EventKeys, converted: &Vec<bool>, trials: usize) -> (r: GroupPlan)
    requires
        events.distributor@.len() == events.month@.len(),
        events.distributor@.len() == converted@.len(),
        forall|j: int| 0 <= j < events.distributor@.len() ==> 1 <= #[trigger] events.distributor@[j] <= trials,
    ensures
        r.describes(events.distributor@, events.month@, converted@),
        r.tallies@.len() == trials,
{
    let keys = group_keys(&events.distributor, &events.month);
    let row_group = group_of_rows(&keys, &events.distributor, &events.month);
    let tallies = conversion_tallies(&events.distributor, converted, trials);
    let r = GroupPlan { keys, row_group, tallies };
    assert forall|g: int| 0 <= g < r.keys@.len() implies 1 <= (#[trigger] r.keys@[g]).0 <= r.tallies@.len() by {
        assert(is_row_key(events.distributor@, events.month@, r.keys@[g]));
        let j = choose|j: int| 0 <= j < events.distributor@.len() && r.keys@[g] == #[trigger] row_key(events.distributor@, events.month@, j);
        assert(1 <= events.distributor@[j] <= trials);
    }
    r
}

/// The conversion probability of a group, as the number of converted rows
/// over the number of rows, depends on its distributor alone: every month of
/// a distributor gets that distributor's count over all of its rows.
pub proof fn lemma_conversion_per_distributor(
    plan: GroupPlan,
    distributor: Seq<i64>,
    month: Seq<i64>,
    converted: Seq<bool>,
    g: int,
)
    requires
        plan.describes(distributor, month, converted),
        0 <= g < plan.keys@.len(),
    ensures
        ({
            let d = plan.keys@[g].0;
            let t = plan.tallies@[d - 1];
            t.converted == converted_of(distributor, converted, d as int) && t.rows == rows_of(distributor, d as int)
        }),
{
    assert(1 <= plan.keys@[g].0 <= plan.tallies@.len());
    let d = plan.keys@[g].0;
    assert(plan.tallies@[d - 1].rows == rows_of(distributor, d - 1 + 1));
}

} // verus!
