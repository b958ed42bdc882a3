use vstd::prelude::*;
use crate::errors::SimError;

verus! {

/// The realised size of one trial: the workdays in each month, the retailers
/// visited on each day, and the number of months simulated.
#[derive(Debug, PartialEq, Eq, Structural, Clone, Copy)]
pub struct TrialShape {
    pub workdays: usize,
    pub retailers: usize,
    pub months: usize,
}

impl TrialShape {
    /// The rows in one month: one per workday and retailer.
    pub open spec fn block(&self) -> nat {
        self.workdays as nat * self.retailers as nat
    }

    /// The rows in the whole trial.
    pub open spec fn rows(&self) -> nat {
        self.block() * self.months as nat
    }

    /// The month, counted from 1, of row `j` of the trial.
    pub open spec fn month_of(&self, j: int) -> int {
        j / (self.block() as int) + 1
    }

    /// The trial's row count, or `None` when it does not fit in a `usize`.
    pub fn row_count(&self) -> (r: Option<usize>)
        ensures
            r.is_none() <==> self.rows() > usize::MAX,
            r matches Some(n) ==> n as nat == self.rows(),
    {
        if self.months == 0 {
            assert(self.rows() == 0);
            return Some(0);
        }
        match self.workdays.checked_mul(self.retailers) {
            None => {
                let ghost b = self.block();
                let ghost m = self.months as nat;
                assert(b * m >= b) by (nonlinear_arith)
                    requires
                        m >= 1,
                {
                }
                None
            },
            Some(b) => b.checked_mul(self.months),
        }
    }

    /// The month column of the trial: the rows fall into `months` contiguous
    /// blocks of `workdays * retailers` rows, block `k` (from 0) holding
    /// month `k + 1`.
    pub fn month_column(&self) -> (r: Vec<i64>)
        requires
            self.rows() <= usize::MAX,
            self.months <= i64::MAX,
        ensures
            r@.len() == self.rows(),
            forall|j: int| 0 <= j < r@.len() ==> r@[j] == self.month_of(j),
    {
        let mut r: Vec<i64> = Vec::new();
        if self.workdays == 0 || self.retailers == 0 || self.months == 0 {
            assert(self.rows() == 0) by (nonlinear_arith)
                requires
                    self.workdays == 0 || self.retailers == 0 || self.months == 0,
                    self.rows() == self.workdays as nat * self.retailers as nat * self.months as nat,
            {
            }
            return r;
        }
        assert(self.block() <= self.rows() && self.block() > 0) by (nonlinear_arith)
            requires
                self.workdays >= 1,
                self.retailers >= 1,
                self.months >= 1,
                self.rows() == self.block() * self.months as nat,
                self.block() == self.workdays as nat * self.retailers as nat,
        {
        }
        let block: usize = self.workdays * self.retailers;
        let total: usize = block * self.months;
        let mut j: usize = 0;
        while j < total
            invariant
                block as nat == self.block(),
                total as nat == self.rows(),
                block > 0,
                self.months <= i64::MAX,
                j <= total,
                r@.len() == j,
                forall|i: int| 0 <= i < j ==> r@[i] == self.month_of(i),
            decreases total - j,
        {
            let m: usize = j / block;
            assert(m < self.months) by (nonlinear_arith)
                requires
                    j < total,
                    total == block * self.months,
                    m == j / block,
                    block > 0,
            {
            }
            r.push((m + 1) as i64);
            j += 1;
        }
        r
    }
}

/// A column that holds `id` on each of its `len` rows.
pub fn distributor_column(id: i64, len: usize) -> (r: Vec<i64>)
    ensures
        r@.len() == len,
        forall|j: int| 0 <= j < len ==> r@[j] == id,
{
    let mut r: Vec<i64> = Vec::new();
    let mut j: usize = 0;
    while j < len
        invariant
            j <= len,
            r@.len() == j,
            forall|i: int| 0 <= i < j ==> r@[i] == id,
        decreases len - j,
    {
        r.push(id);
        j += 1;
    }
    r
}

/// The indices of the trials of a run asked for `trials` trials: `1` to
/// `trials`. A run needs at least one trial.
pub fn trial_ids(trials: i64) -> (r: Result<Vec<i64>, SimError>)
    ensures
        r is Err <==> trials < 1,
        r matches Err(e) ==> e == SimError::NoTrials,
        r matches Ok(v) ==> v@.len() == trials && forall|j: int|
            0 <= j < v@.len() ==> v@[j] == j + 1,
{
    if trials < 1 {
        return Err(SimError::NoTrials);
    }
    let mut v: Vec<i64> = Vec::new();
    let mut i: i64 = 0;
    while i < trials
        invariant
            0 <= i <= trials,
            v@.len() == i,
            forall|j: int| 0 <= j < v@.len() ==> v@[j] == j + 1,
        decreases trials - i,
    {
        i += 1;
        v.push(i);
    }
    Ok(v)
}

/// The rows of a trial that hold month `k` are exactly the `k`-th block of
/// `workdays * retailers` consecutive rows, so each of the months `1` to
/// `months` appears on exactly that many rows and no other month appears.
pub proof fn lemma_month_blocks(shape: TrialShape, j: int, k: int)
    requires
        shape.block() > 0,
        0 <= j < shape.rows(),
    ensures
        1 <= shape.month_of(j) <= shape.months,
        shape.month_of(j) == k <==> (k - 1) * shape.block() <= j < k * shape.block(),
{
    let b = shape.block() as int;
    let q = j / b;
    assert(j == b * q + j % b && 0 <= j % b < b) by {
        vstd::arithmetic::div_mod::lemma_fundamental_div_mod(j, b);
    }
    assert(0 <= q < shape.months) by (nonlinear_arith)
        requires
            j == b * q + j % b,
            0 <= j % b < b,
            0 <= j < b * shape.months,
            b > 0,
    {
    }
    assert(q == k - 1 <==> (k - 1) * b <= j < k * b) by (nonlinear_arith)
        requires
            j == b * q + j % b,
            0 <= j % b < b,
            b > 0,
    {
    }
}

} // verus!
