use vstd::prelude::*;
use crate::drivers::{all_present, first_absent, first_missing, Driver};
use crate::errors::SimError;
use crate::trial::trial_ids;

verus! {

/// The checks made before any trial is drawn: every driver must be given
/// (the first absent one, in lookup order, is named), and then at least one
/// trial must be asked for. On success, the trial indices `1` to `trials`.
pub fn prepare_run(present: &Vec<Driver>, trials: i64) -> (r: Result<Vec<i64>, SimError>)
    ensures
        !all_present(present@) ==> (r matches Err(SimError::MissingParameter(d)) && first_absent(present@, d)),
        all_present(present@) && trials < 1 ==> r == Err::<Vec<i64>, SimError>(SimError::NoTrials),
        r is Ok <==> all_present(present@) && trials >= 1,
        r matches Ok(v) ==> v@.len() == trials && forall|j: int| 0 <= j < v@.len() ==> v@[j] == j + 1,
{
    match first_missing(present) {
        Some(d) => Err(SimError::MissingParameter(d)),
        None => trial_ids(trials),
    }
}

/// Whether every entry of `distributor` lies in `1..=trials`.
pub fn distributors_in_range(distributor: &Vec<i64>, trials: usize) -> (r: bool)
    ensures
        r == forall|j: int| 0 <= j < distributor@.len() ==> 1 <= #[trigger] distributor@[j] <= trials,
{
    let mut j: usize = 0;
    while j < distributor.len()
        invariant
            j <= distributor@.len(),
            forall|i: int| 0 <= i < j ==> 1 <= #[trigger] distributor@[i] <= trials,
        decreases distributor@.len() - j,
    {
        let d = distributor[j];
        if d < 1 || (d as u64 as u128) > (trials as u128) {
            return false;
        }
        j += 1;
    }
    true
}

} // verus!
