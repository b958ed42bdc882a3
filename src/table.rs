use vstd::prelude::*;
use crate::errors::SimError;
use crate::trial::{distributor_column, TrialShape};

verus! {

/// The key columns of the event table of a run: for each row, the trial that
/// produced it (its distributor) and its month.
pub struct EventKeys {
    pub distributor: Vec<i64>,
    pub month: Vec<i64>,
}

/// The rows of all trials together.
pub open spec fn total_rows(shapes: Seq<TrialShape>) -> nat
    decreases shapes.len(),
{
    if shapes.len() == 0 {
        0
    } else {
        total_rows(shapes.drop_last()) + shapes.last().rows()
    }
}

/// The distributor column of the trials' tables put one after another.
pub open spec fn union_distributors(ids: Seq<i64>, shapes: Seq<TrialShape>) -> Seq<i64>
    decreases shapes.len(),
{
    if shapes.len() == 0 || ids.len() == 0 {
        Seq::empty()
    } else {
        union_distributors(ids.drop_last(), shapes.drop_last()) + Seq::new(
            shapes.last().rows(),
            |j: int| ids.last(),
        )
    }
}

/// The month column of the trials' tables put one after another.
pub open spec fn union_months(shapes: Seq<TrialShape>) -> Seq<i64>
    decreases shapes.len(),
{
    if shapes.len() == 0 {
        Seq::empty()
    } else {
        union_months(shapes.drop_last()) + Seq::new(
            shapes.last().rows(),
            |j: int| shapes.last().month_of(j) as i64,
        )
    }
}

/// The most rows a run may hold: as many as both a `usize` index and an `i64`
/// count can reach.
pub open spec fn row_limit() -> nat {
    if usize::MAX < i64::MAX {
        usize::MAX as nat
    } else {
        i64::MAX as nat
    }
}

/// The rows of one trial as a `u128`, or `None` when they exceed the row limit.
fn rows_within_limit(shape: TrialShape) -> (r: Option<u128>)
    ensures
        r.is_none() <==> shape.rows() > row_limit(),
        r matches Some(n) ==> n as nat == shape.rows(),
{
    if shape.months == 0 {
        assert(shape.rows() == 0);
        return Some(0);
    }
    let w = shape.workdays as u128;
    let rt = shape.retailers as u128;
    let m = shape.months as u128;
    assert(w * rt <= u64::MAX as nat * u64::MAX as nat) by (nonlinear_arith)
        requires
            w <= u64::MAX,
            rt <= u64::MAX,
    {
    }
    let b: u128 = w * rt;
    let limit: u128 = if (usize::MAX as u128) < (i64::MAX as u128) {
        usize::MAX as u128
    } else {
        i64::MAX as u128
    };
    if b > limit {
        assert(b as nat * m as nat >= b as nat) by (nonlinear_arith)
            requires
                m >= 1,
        {
        }
        return None;
    }
    assert(b * m <= i64::MAX as nat * u64::MAX as nat) by (nonlinear_arith)
        requires
            b <= i64::MAX,
            m <= u64::MAX,
    {
    }
    let n: u128 = b * m;
    if n > limit {
        None
    } else {
        Some(n)
    }
}

/// The rows of a prefix of the trials are no more than those of all of them.
proof fn lemma_total_rows_prefix(shapes: Seq<TrialShape>, t: int)
    requires
        0 <= t <= shapes.len(),
    ensures
        total_rows(shapes.take(t)) <= total_rows(shapes),
    decreases shapes.len(),
{
    if t < shapes.len() {
        assert(shapes.drop_last().take(t) =~= shapes.take(t));
        lemma_total_rows_prefix(shapes.drop_last(), t);
    } else {
        assert(shapes.take(t) =~= shapes);
    }
}

/// The key columns of a run whose trial `t` has index `ids[t]` and shape
/// `shapes[t]`: the trials' tables one after another, in the order given.
/// Fails when the run holds more rows than the row limit.
pub fn union_keys(ids: &Vec<i64>, shapes: &Vec<TrialShape>) -> (r: Result<EventKeys, SimError>)
    requires
        ids@.len() == shapes@.len(),
    ensures
        r is Err <==> total_rows(shapes@) > row_limit(),
        r matches Err(e) ==> e == SimError::TooManyRows,
        r matches Ok(k) ==> k.distributor@ == union_distributors(ids@, shapes@) && k.month@
            == union_months(shapes@),
{
    let mut distributor: Vec<i64> = Vec::new();
    let mut month: Vec<i64> = Vec::new();
    let mut total: u128 = 0;
    let mut t: usize = 0;
    while t < shapes.len()
        invariant
            ids@.len() == shapes@.len(),
            t <= shapes@.len(),
            total as nat == total_rows(shapes@.take(t as int)),
            total <= row_limit(),
            distributor@ == union_distributors(ids@.take(t as int), shapes@.take(t as int)),
            month@ == union_months(shapes@.take(t as int)),
        decreases shapes@.len() - t,
    {
        let shape = shapes[t];
        proof {
            assert(shapes@.take(t + 1).drop_last() =~= shapes@.take(t as int));
            assert(ids@.take(t + 1).drop_last() =~= ids@.take(t as int));
            lemma_total_rows_prefix(shapes@, t + 1);
            assert(shapes@.take(t + 1).last() == shape);
            assert(ids@.take(t + 1).last() == ids@[t as int]);
        }
        let n = match rows_within_limit(shape) {
            None => {
                return Err(SimError::TooManyRows);
            },
            Some(n) => n,
        };
        let limit: u128 = if (usize::MAX as u128) < (i64::MAX as u128) {
            usize::MAX as u128
        } else {
            i64::MAX as u128
        };
        if n + total > limit {
            return Err(SimError::TooManyRows);
        }
        let rows = n as usize;
        if shape.workdays > 0 && shape.retailers > 0 {
            assert(shape.months as nat <= shape.rows()) by (nonlinear_arith)
                requires
                    shape.workdays >= 1,
                    shape.retailers >= 1,
                    shape.rows() == shape.workdays as nat * shape.retailers as nat
                        * shape.months as nat,
            {
            }
        }
        assert(shape.block() > 0 || shape.rows() == 0) by (nonlinear_arith)
            requires
                shape.rows() == shape.block() * shape.months as nat,
        {
        }
        let mut ms = if rows == 0 {
            Vec::new()
        } else {
            shape.month_column()
        };
        let mut ds = distributor_column(ids[t], rows);
        proof {
            assert(ms@ =~= Seq::new(shape.rows(), |j: int| shape.month_of(j) as i64));
            assert(ds@ =~= Seq::new(shape.rows(), |j: int| ids@[t as int]));
        }
        distributor.append(&mut ds);
        month.append(&mut ms);
        total = total + n;
        t += 1;
    }
    proof {
        assert(shapes@.take(t as int) =~= shapes@);
        assert(ids@.take(t as int) =~= ids@);
    }
    Ok(EventKeys { distributor, month })
}

/// When trial `j` has index `j + 1` and every trial has at least one row, the
/// distributor ids that occur in the run are exactly `1` to the number of
/// trials.
pub proof fn lemma_union_distributors(ids: Seq<i64>, shapes: Seq<TrialShape>, x: i64)
    requires
        ids.len() == shapes.len(),
        forall|j: int| 0 <= j < ids.len() ==> ids[j] == j + 1,
        forall|j: int| 0 <= j < shapes.len() ==> #[trigger] shapes[j].rows() > 0,
    ensures
        union_distributors(ids, shapes).contains(x) <==> 1 <= x <= ids.len(),
    decreases shapes.len(),
{
    if shapes.len() > 0 {
        let n = shapes.len() - 1;
        let pre = union_distributors(ids.drop_last(), shapes.drop_last());
        let tail = Seq::new(shapes.last().rows(), |j: int| ids.last());
        assert forall|j: int| 0 <= j < shapes.drop_last().len() implies #[trigger] shapes.drop_last()[j].rows() > 0 by {
            assert(shapes.drop_last()[j] == shapes[j]);
        }
        lemma_union_distributors(ids.drop_last(), shapes.drop_last(), x);
        assert(shapes[n].rows() > 0);
        assert(tail[0] == ids[n]);
        if x == n + 1 {
            assert((pre + tail)[pre.len() as int] == x);
        }
        if (pre + tail).contains(x) {
            let k = choose|k: int| 0 <= k < (pre + tail).len() && (pre + tail)[k] == x;
            if k < pre.len() {
                assert(pre[k] == x);
            }
        }
        if pre.contains(x) {
            let k = choose|k: int| 0 <= k < pre.len() && pre[k] == x;
            assert((pre + tail)[k] == x);
        }
    }
}

} // verus!
