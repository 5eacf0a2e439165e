use vstd::prelude::*;

verus! {

/// One whole, as a fraction: fractions are held in millionths.
pub const ONE: u64 = 1_000_000;

/// One hundred percent, as a raw percentage held in hundredths of a percent.
pub const FULL_PERCENT: u64 = 10_000;

/// How many millionths one hundredth of a percent is worth.
pub const RAW_TO_FRACTION: u64 = 100;

/// The fraction, in millionths, that a raw percentage stands for.
pub open spec fn fraction_of(raw: int) -> int {
    raw * RAW_TO_FRACTION
}

/// The raw percentage that a fraction stands for: the fraction scaled back by one hundred.
pub open spec fn raw_of(fraction: int) -> int {
    fraction / RAW_TO_FRACTION as int
}

/// A raw percentage between 0 and 100, in hundredths of a percent.
#[derive(Debug)]
pub struct Percent(pub u64);

/// A percentage that lies outside 0 to 100; `field` names the value at fault.
#[derive(Debug)]
pub enum PercentError {
    OutOfRange { field: String, value: u64 },
}

impl Percent {
    pub open spec fn valid(self) -> bool {
        self.0 <= FULL_PERCENT
    }

    /// Accepts a raw percentage of at most one hundred percent.
    pub fn try_from_raw(value: u64) -> (r: Result<Percent, &'static str>)
        ensures
            r is Ok <==> value <= FULL_PERCENT,
            r is Ok ==> r->Ok_0.0 == value,
    {
        if value > FULL_PERCENT {
            Err("Value must be a percentage between 0 and 100!")
        } else {
            Ok(Percent(value))
        }
    }

    /// The fraction that this percentage stands for.
    pub fn fraction(&self) -> (r: u64)
        requires
            self.valid(),
        ensures
            r == fraction_of(self.0 as int),
            r <= ONE,
    {
        self.0 * RAW_TO_FRACTION
    }
}

/// An ingredient with its share of the total flour, as a fraction in millionths.
#[derive(Debug)]
pub struct BakersPercent {
    pub name: String,
    pub percent: u64,
}

/// A raw ingredient table: each name with its raw percentage.
pub open spec fn raw_in_range(raw: Seq<(String, u64)>) -> bool {
    forall|i: int| 0 <= i < raw.len() ==> #[trigger] raw[i].1 <= FULL_PERCENT
}

/// `m` holds the names of `raw`, in order, each with the fraction of its raw percentage.
pub open spec fn normalized(raw: Seq<(String, u64)>, m: Seq<BakersPercent>) -> bool {
    &&& m.len() == raw.len()
    &&& forall|i: int|
        0 <= i < raw.len() ==> {
            &&& (#[trigger] m[i]).name@ == raw[i].0@
            &&& m[i].percent == fraction_of(raw[i].1 as int)
        }
}

/// Turns one raw percentage into a fraction; `field` names it in the error.
pub fn normalize_value(field: &String, value: u64) -> (r: Result<u64, PercentError>)
    ensures
        r is Ok <==> value <= FULL_PERCENT,
        r is Ok ==> r->Ok_0 == fraction_of(value as int) && r->Ok_0 <= ONE,
        r matches Err(PercentError::OutOfRange { field: f, value: v }) ==> f@ == field@ && v
            == value,
{
    if value > FULL_PERCENT {
        Err(PercentError::OutOfRange { field: field.clone(), value })
    } else {
        Ok(value * RAW_TO_FRACTION)
    }
}

/// Turns a raw percentage table into fractions, or names the first entry out of range.
pub fn normalize(raw: &Vec<(String, u64)>) -> (r: Result<Vec<BakersPercent>, PercentError>)
    ensures
        r is Ok <==> raw_in_range(raw@),
        r is Ok ==> normalized(raw@, r->Ok_0@),
        r matches Err(PercentError::OutOfRange { field: f, value: v }) ==> exists|i: int|
            0 <= i < raw@.len() && raw@[i].0@ == f@ && raw@[i].1 == v && v > FULL_PERCENT,
{
    let mut out: Vec<BakersPercent> = Vec::new();
    let mut i: usize = 0;
    while i < raw.len()
        invariant
            i <= raw@.len(),
            out@.len() == i,
            raw_in_range(raw@.take(i as int)),
            forall|j: int|
                0 <= j < i ==> {
                    &&& (#[trigger] out@[j]).name@ == raw@[j].0@
                    &&& out@[j].percent == fraction_of(raw@[j].1 as int)
                },
        decreases raw@.len() - i,
    {
        let value = raw[i].1;
        if value > FULL_PERCENT {
            return Err(PercentError::OutOfRange { field: raw[i].0.clone(), value });
        }
        out.push(BakersPercent { name: raw[i].0.clone(), percent: value * RAW_TO_FRACTION });
        assert(raw@.take(i + 1) =~= raw@.take(i as int).push(raw@[i as int]));
        i = i + 1;
    }
    assert(raw@.take(i as int) =~= raw@);
    Ok(out)
}

/// Scaling a normalized fraction back by one hundred gives the raw percentage again.
pub proof fn lemma_normalize_round_trip(raw: Seq<(String, u64)>, m: Seq<BakersPercent>)
    requires
        normalized(raw, m),
    ensures
        forall|i: int| 0 <= i < raw.len() ==> raw_of(#[trigger] m[i].percent as int) == raw[i].1,
{
}

} // verus!
