use mcs_sim::aggregate::{
    conversion_tallies, group_keys, group_of_rows, key_before, lower_bound, plan_groups, Tally,
};
use mcs_sim::distributions::Distributions;
use mcs_sim::drivers::{contains_driver, first_missing, Driver};
use mcs_sim::errors::{DistributionError, SimError};
use mcs_sim::run::{distributors_in_range, prepare_run};
use mcs_sim::table::{union_keys, EventKeys};
use mcs_sim::trial::{distributor_column, trial_ids, TrialShape};

fn all_drivers() -> Vec<Driver> {
    Driver::in_lookup_order()
}

fn without(d: Driver) -> Vec<Driver> {
    all_drivers().into_iter().filter(|x| *x != d).collect()
}

fn shape(workdays: usize, retailers: usize, months: usize) -> TrialShape {
    TrialShape { workdays, retailers, months }
}

#[test]
fn family_names() {
    assert_eq!(Distributions::Uniform.name(), "Uniform");
    assert_eq!(Distributions::Normal.name(), "Normal");
    assert_eq!(Distributions::Bernoulli.name(), "Bernoulli");
    assert_eq!(Distributions::Constant.name(), "Constant");
    assert_eq!(Distributions::Triangular.name(), "Triangular");
    assert_eq!(Distributions::Pert.name(), "Pert");
}

#[test]
fn driver_keys() {
    assert_eq!(Driver::Prices.key(), "Prices");
    assert_eq!(Driver::RetailersPerDay.key(), "Retailers_per_Day");
    assert_eq!(Driver::WorkdaysPerMonth.key(), "Workdays_per_Month");
    assert_eq!(Driver::ConversionRate.key(), "Conversion_Rate");
    assert_eq!(Driver::Units.key(), "Units");
    assert_eq!(Driver::CommissionRate.key(), "Commission_Rate");
    assert_eq!(Driver::TransportBonus.key(), "Transport_Bonus");
    assert_eq!(Driver::Trials.key(), "Trials");
    assert_eq!(Driver::NumberOfMonths.key(), "Number_of_Months");
}

#[test]
fn lookup_order_lists_every_driver_once() {
    let all = all_drivers();
    assert_eq!(all.len(), 9);
    assert_eq!(all[0], Driver::TransportBonus);
    assert_eq!(all[8], Driver::NumberOfMonths);
    for d in &all {
        assert_eq!(all.iter().filter(|x| *x == d).count(), 1);
    }
}

#[test]
fn contains_driver_finds_members_only() {
    let v = vec![Driver::Units, Driver::Prices];
    assert!(contains_driver(&v, Driver::Units));
    assert!(!contains_driver(&v, Driver::Trials));
    assert!(!contains_driver(&Vec::new(), Driver::Trials));
}

#[test]
fn missing_units_is_named() {
    assert_eq!(first_missing(&without(Driver::Units)), Some(Driver::Units));
    assert_eq!(Driver::Units.key(), "Units");
}

#[test]
fn complete_bundle_has_nothing_missing() {
    assert_eq!(first_missing(&all_drivers()), None);
}

#[test]
fn first_missing_follows_lookup_order() {
    assert_eq!(first_missing(&Vec::new()), Some(Driver::TransportBonus));
    let v = vec![Driver::TransportBonus, Driver::Trials, Driver::CommissionRate];
    assert_eq!(first_missing(&v), Some(Driver::Prices));
}

#[test]
fn prepare_run_reports_missing_key_before_trials() {
    assert_eq!(
        prepare_run(&without(Driver::Units), 0),
        Err(SimError::MissingParameter(Driver::Units))
    );
}

#[test]
fn zero_trials_fail() {
    assert_eq!(prepare_run(&all_drivers(), 0), Err(SimError::NoTrials));
    assert_eq!(prepare_run(&all_drivers(), -4), Err(SimError::NoTrials));
}

#[test]
fn prepare_run_gives_trial_indices() {
    assert_eq!(prepare_run(&all_drivers(), 3), Ok(vec![1, 2, 3]));
}

#[test]
fn trial_ids_count_from_one() {
    assert_eq!(trial_ids(1), Ok(vec![1]));
    assert_eq!(trial_ids(5), Ok(vec![1, 2, 3, 4, 5]));
    assert_eq!(trial_ids(0), Err(SimError::NoTrials));
}

#[test]
fn row_count_is_product() {
    assert_eq!(shape(2, 3, 4).row_count(), Some(24));
    assert_eq!(shape(20, 10, 12).row_count(), Some(2400));
    assert_eq!(shape(0, 3, 4).row_count(), Some(0));
    assert_eq!(shape(usize::MAX, usize::MAX, 0).row_count(), Some(0));
    assert_eq!(shape(usize::MAX, 2, 1).row_count(), None);
}

#[test]
fn month_column_has_equal_blocks() {
    let m = shape(2, 2, 3).month_column();
    assert_eq!(m, vec![1, 1, 1, 1, 2, 2, 2, 2, 3, 3, 3, 3]);
    let m = shape(3, 5, 4).month_column();
    assert_eq!(m.len(), 60);
    for k in 1..=4i64 {
        assert_eq!(m.iter().filter(|x| **x == k).count(), 15);
    }
}

#[test]
fn month_column_empty_when_a_factor_is_zero() {
    assert!(shape(0, 5, 4).month_column().is_empty());
    assert!(shape(3, 0, 4).month_column().is_empty());
    assert!(shape(3, 5, 0).month_column().is_empty());
}

#[test]
fn distributor_column_repeats_id() {
    assert_eq!(distributor_column(7, 3), vec![7, 7, 7]);
    assert!(distributor_column(7, 0).is_empty());
}

#[test]
fn union_has_one_distributor_per_trial() {
    let ids = trial_ids(3).unwrap();
    let shapes = vec![shape(2, 1, 2), shape(1, 1, 2), shape(3, 2, 2)];
    let keys = union_keys(&ids, &shapes).unwrap();
    assert_eq!(keys.distributor.len(), 4 + 2 + 12);
    assert_eq!(keys.month.len(), 18);
    let mut seen: Vec<i64> = keys.distributor.clone();
    seen.dedup();
    assert_eq!(seen, vec![1, 2, 3]);
    assert_eq!(&keys.month[0..6], &[1, 1, 2, 2, 1, 2]);
}

#[test]
fn union_skips_empty_trials() {
    let ids = trial_ids(3).unwrap();
    let shapes = vec![shape(1, 1, 1), shape(0, 4, 2), shape(1, 1, 1)];
    let keys = union_keys(&ids, &shapes).unwrap();
    assert_eq!(keys.distributor, vec![1, 3]);
    assert_eq!(keys.month, vec![1, 1]);
}

#[test]
fn union_refuses_too_many_rows() {
    let ids = vec![1];
    let shapes = vec![shape(usize::MAX, 2, 1)];
    assert!(matches!(union_keys(&ids, &shapes), Err(SimError::TooManyRows)));
}

#[test]
fn key_order_is_by_distributor_then_month() {
    assert!(key_before((1, 5), (2, 1)));
    assert!(key_before((2, 1), (2, 3)));
    assert!(!key_before((2, 3), (2, 3)));
    assert!(!key_before((3, 1), (2, 9)));
}

#[test]
fn lower_bound_finds_insertion_point() {
    let keys = vec![(1, 1), (1, 2), (2, 1)];
    assert_eq!(lower_bound(&keys, (1, 2)), 1);
    assert_eq!(lower_bound(&keys, (1, 3)), 2);
    assert_eq!(lower_bound(&keys, (0, 0)), 0);
    assert_eq!(lower_bound(&keys, (9, 9)), 3);
}

#[test]
fn groups_are_sorted_without_duplicates() {
    let distributor = vec![2, 1, 2, 1, 2, 1];
    let month = vec![1, 2, 1, 1, 2, 2];
    let keys = group_keys(&distributor, &month);
    assert_eq!(keys, vec![(1, 1), (1, 2), (2, 1), (2, 2)]);
}

#[test]
fn groups_of_empty_table() {
    assert!(group_keys(&Vec::new(), &Vec::new()).is_empty());
}

#[test]
fn rows_map_to_their_group() {
    let distributor = vec![2, 1, 2, 1];
    let month = vec![1, 2, 1, 1];
    let keys = group_keys(&distributor, &month);
    let rows = group_of_rows(&keys, &distributor, &month);
    assert_eq!(rows, vec![2, 1, 2, 0]);
}

#[test]
fn tallies_count_all_rows_of_a_distributor() {
    let distributor = vec![1, 1, 1, 1, 2, 2];
    let converted = vec![true, false, true, true, false, false];
    let t = conversion_tallies(&distributor, &converted, 2);
    assert_eq!(t, vec![Tally { converted: 3, rows: 4 }, Tally { converted: 0, rows: 2 }]);
    let t = conversion_tallies(&distributor, &converted, 3);
    assert_eq!(t[2], Tally { converted: 0, rows: 0 });
}

#[test]
fn conversion_tally_is_the_same_for_every_month() {
    let ids = trial_ids(2).unwrap();
    let shapes = vec![shape(1, 2, 2), shape(1, 1, 2)];
    let events = union_keys(&ids, &shapes).unwrap();
    // distributor 1: months 1,1,2,2; distributor 2: months 1,2
    let converted = vec![true, false, false, false, true, true];
    let plan = plan_groups(&events, &converted, 2);
    assert_eq!(plan.keys, vec![(1, 1), (1, 2), (2, 1), (2, 2)]);
    assert_eq!(plan.row_group, vec![0, 0, 1, 1, 2, 3]);
    for g in 0..2 {
        assert_eq!(plan.group_tally(g), Tally { converted: 1, rows: 4 });
    }
    for g in 2..4 {
        assert_eq!(plan.group_tally(g), Tally { converted: 2, rows: 2 });
    }
}

#[test]
fn deterministic_fixture_two_by_two() {
    let ids = trial_ids(2).unwrap();
    let shapes = vec![shape(2, 3, 2), shape(2, 3, 2)];
    let events = union_keys(&ids, &shapes).unwrap();
    assert_eq!(events.distributor.len(), 24);
    let converted = vec![true; 24];
    let plan = plan_groups(&events, &converted, 2);
    assert_eq!(plan.keys, vec![(1, 1), (1, 2), (2, 1), (2, 2)]);
    for g in 0..4 {
        let n = plan.row_group.iter().filter(|x| **x == g).count();
        assert_eq!(n, 6);
        assert_eq!(plan.group_tally(g), Tally { converted: 12, rows: 12 });
    }
}

#[test]
fn distributor_range_check() {
    assert!(distributors_in_range(&vec![1, 2, 2], 2));
    assert!(!distributors_in_range(&vec![1, 3], 2));
    assert!(!distributors_in_range(&vec![0], 2));
    assert!(distributors_in_range(&Vec::new(), 0));
}

#[test]
fn event_keys_can_be_built_directly() {
    let events = EventKeys { distributor: vec![1, 1], month: vec![2, 1] };
    let plan = plan_groups(&events, &vec![false, true], 1);
    assert_eq!(plan.keys, vec![(1, 1), (1, 2)]);
    assert_eq!(plan.row_group, vec![1, 0]);
}

#[test]
fn distribution_constraints_are_described() {
    assert_eq!(DistributionError::Uniform.constraint(), "min <= max must hold");
    assert_eq!(DistributionError::Bernoulli.constraint(), "probability must lie in [0, 1]");
    assert_eq!(DistributionError::Normal.constraint(), "standard deviation must not be negative");
    assert_eq!(DistributionError::Pert.constraint(), "min <= mode <= max must hold");
    assert_eq!(DistributionError::Triangular.constraint(), "min <= mode <= max must hold");
    assert_eq!(
        SimError::Distribution(DistributionError::Pert),
        SimError::Distribution(DistributionError::Pert)
    );
}

#[test]
fn default_family_is_normal() {
    assert_eq!(Distributions::default(), Distributions::Normal);
}
