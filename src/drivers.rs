use vstd::prelude::*;

verus! {

/// A named business input whose value is drawn from a distribution.
#[derive(Debug, PartialEq, Eq, Structural, Clone, Copy)]
pub enum Driver {
    Prices,
    RetailersPerDay,
    WorkdaysPerMonth,
    ConversionRate,
    Units,
    CommissionRate,
    TransportBonus,
    Trials,
    NumberOfMonths,
}

/// The key under which a driver is given in a parameter bundle.
pub open spec fn driver_key(d: Driver) -> Seq<char> {
    match d {
        Driver::Prices => "Prices"@,
        Driver::RetailersPerDay => "Retailers_per_Day"@,
        Driver::WorkdaysPerMonth => "Workdays_per_Month"@,
        Driver::ConversionRate => "Conversion_Rate"@,
        Driver::Units => "Units"@,
        Driver::CommissionRate => "Commission_Rate"@,
        Driver::TransportBonus => "Transport_Bonus"@,
        Driver::Trials => "Trials"@,
        Driver::NumberOfMonths => "Number_of_Months"@,
    }
}

/// The order in which a run looks its drivers up; the first one absent is the
/// one that a missing-parameter error names.
pub open spec fn lookup_order() -> Seq<Driver> {
    seq![
        Driver::TransportBonus,
        Driver::Trials,
        Driver::CommissionRate,
        Driver::Prices,
        Driver::RetailersPerDay,
        Driver::WorkdaysPerMonth,
        Driver::ConversionRate,
        Driver::Units,
        Driver::NumberOfMonths,
    ]
}

/// Every driver is in `present`.
pub open spec fn all_present(present: Seq<Driver>) -> bool {
    forall|i: int| 0 <= i < lookup_order().len() ==> present.contains(#[trigger] lookup_order()[i])
}

/// `d` is the first driver, in lookup order, that `present` lacks.
pub open spec fn first_absent(present: Seq<Driver>, d: Driver) -> bool {
    exists|k: int|
        0 <= k < lookup_order().len() && lookup_order()[k] == d && !present.contains(d) && (
        forall|j: int| 0 <= j < k ==> present.contains(#[trigger] lookup_order()[j]))
}

impl Driver {
    /// The key under which this driver is given in a parameter bundle.
    pub fn key(&self) -> (r: &'static str)
        ensures
            r@ == driver_key(*self),
    {
        match self {
            Driver::Prices => "Prices",
            Driver::RetailersPerDay => "Retailers_per_Day",
            Driver::WorkdaysPerMonth => "Workdays_per_Month",
            Driver::ConversionRate => "Conversion_Rate",
            Driver::Units => "Units",
            Driver::CommissionRate => "Commission_Rate",
            Driver::TransportBonus => "Transport_Bonus",
            Driver::Trials => "Trials",
            Driver::NumberOfMonths => "Number_of_Months",
        }
    }

    /// All drivers, in the order in which a run looks them up.
    pub fn in_lookup_order() -> (r: Vec<Driver>)
        ensures
            r@ == lookup_order(),
    {
        let r = vec![
            Driver::TransportBonus,
            Driver::Trials,
            Driver::CommissionRate,
            Driver::Prices,
            Driver::RetailersPerDay,
            Driver::WorkdaysPerMonth,
            Driver::ConversionRate,
            Driver::Units,
            Driver::NumberOfMonths,
        ];
        assert(r@ =~= lookup_order());
        r
    }
}

/// Whether `d` occurs in `v`.
pub fn contains_driver(v: &Vec<Driver>, d: Driver) -> (r: bool)
    ensures
        r == v@.contains(d),
{
    let mut i: usize = 0;
    while i < v.len()
        invariant
            i <= v@.len(),
            forall|j: int| 0 <= j < i ==> v@[j] != d,
        decreases v@.len() - i,
    {
        if v[i] == d {
            return true;
        }
        i += 1;
    }
    false
}

/// The first driver, in lookup order, that `present` lacks; `None` when the
/// bundle is complete.
pub fn first_missing(present: &Vec<Driver>) -> (r: Option<Driver>)
    ensures
        r.is_none() <==> all_present(present@),
        r matches Some(d) ==> first_absent(present@, d),
{
    let order = Driver::in_lookup_order();
    let mut k: usize = 0;
    while k < order.len()
        invariant
            order@ == lookup_order(),
            k <= order@.len(),
            forall|j: int| 0 <= j < k ==> present@.contains(#[trigger] lookup_order()[j]),
        decreases order@.len() - k,
    {
        let d = order[k];
        if !contains_driver(present, d) {
            assert(lookup_order()[k as int] == d);
            assert(first_absent(present@, d));
            return Some(d);
        }
        k += 1;
    }
    None
}

} // verus!
