use vstd::prelude::*;
use crate::percent::{
    fraction_of, normalize, normalize_value, raw_in_range, BakersPercent, Percent, PercentError,
    FULL_PERCENT,
};

verus! {

/// A dough as it is written down: each percentage validated and turned into a fraction.
#[derive(Debug)]
pub struct DoughSpec {
    pub name: String,
    pub description: Option<String>,
    pub flour: Vec<BakersPercent>,
    pub hydration: u64,
    pub salt: u64,
    pub yeast: Option<u64>,
    pub mixins: Option<Vec<BakersPercent>>,
    pub starter: Option<u64>,
}

/// A dough as it is read: raw percentages, in hundredths of a percent, keyed by name.
#[derive(Debug)]
pub struct RawDoughSpec {
    pub name: String,
    pub description: Option<String>,
    pub flour: Vec<(String, u64)>,
    pub hydration: u64,
    pub salt: u64,
    pub yeast: Option<u64>,
    pub mixins: Option<Vec<(String, u64)>>,
    pub starter: Option<u64>,
}

/// A starter build: its flour mix and its hydration, as fractions.
#[derive(Debug)]
pub struct StarterSpec {
    pub flour: Vec<BakersPercent>,
    pub hydration: u64,
}

/// A starter build as it is read: raw percentages.
#[derive(Debug)]
pub struct RawStarterSpec {
    pub flour: Vec<(String, u64)>,
    pub hydration: u64,
}

/// A name as it is shown: each underscore becomes a space.
pub open spec fn spaced(s: Seq<char>) -> Seq<char> {
    s.map_values(|c: char| if c == '_' { ' ' } else { c })
}

/// Relies on `str::replace`, which replaces every match of the pattern: here
/// each `'_'` by `" "`, leaving every other character as it is.
#[verifier::external_body]
fn spaced_name(name: &String) -> (r: String)
    ensures
        r@ == spaced(name@),
{
    name.replace('_', " ")
}

/// `m` holds the entries of `raw`, in order, with names spaced and fractions for percentages.
pub open spec fn spaced_table(raw: Seq<(String, u64)>, m: Seq<BakersPercent>) -> bool {
    &&& m.len() == raw.len()
    &&& forall|i: int|
        0 <= i < raw.len() ==> {
            &&& (#[trigger] m[i]).name@ == spaced(raw[i].0@)
            &&& m[i].percent == fraction_of(raw[i].1 as int)
        }
}

/// Validates a raw table and gives its fractions under spaced names.
pub fn bakers_table(raw: &Vec<(String, u64)>) -> (r: Result<Vec<BakersPercent>, PercentError>)
    ensures
        r is Ok <==> raw_in_range(raw@),
        r is Ok ==> spaced_table(raw@, r->Ok_0@),
        r matches Err(PercentError::OutOfRange { value: v, .. }) ==> v > FULL_PERCENT,
{
    let fractions = match normalize(raw) {
        Ok(m) => m,
        Err(e) => {
            return Err(e);
        },
    };
    let mut out: Vec<BakersPercent> = Vec::new();
    let mut i: usize = 0;
    while i < fractions.len()
        invariant
            i <= fractions@.len(),
            fractions@.len() == raw@.len(),
            forall|j: int|
                0 <= j < raw@.len() ==> {
                    &&& (#[trigger] fractions@[j]).name@ == raw@[j].0@
                    &&& fractions@[j].percent == fraction_of(raw@[j].1 as int)
                },
            out@.len() == i,
            forall|j: int|
                0 <= j < i ==> {
                    &&& (#[trigger] out@[j]).name@ == spaced(raw@[j].0@)
                    &&& out@[j].percent == fraction_of(raw@[j].1 as int)
                },
        decreases fractions@.len() - i,
    {
        out.push(
            BakersPercent { name: spaced_name(&fractions[i].name), percent: fractions[i].percent },
        );
        i = i + 1;
    }
    Ok(out)
}

/// Every percentage of a raw dough lies between 0 and 100.
pub open spec fn raw_dough_in_range(v: RawDoughSpec) -> bool {
    &&& raw_in_range(v.flour@)
    &&& v.hydration <= FULL_PERCENT
    &&& v.salt <= FULL_PERCENT
    &&& (v.yeast matches Some(y) ==> y <= FULL_PERCENT)
    &&& (v.mixins matches Some(m) ==> raw_in_range(m@))
    &&& (v.starter matches Some(s) ==> s <= FULL_PERCENT)
}

impl DoughSpec {
    /// Validates each percentage of a raw dough and turns it into a fraction;
    /// the error names the first field or ingredient out of range.
    pub fn try_from_raw(value: RawDoughSpec) -> (r: Result<DoughSpec, PercentError>)
        ensures
            r is Ok <==> raw_dough_in_range(value),
            r matches Err(PercentError::OutOfRange { value: v, .. }) ==> v > FULL_PERCENT,
            r matches Ok(d) ==> {
                &&& d.name == value.name
                &&& d.description == value.description
                &&& spaced_table(value.flour@, d.flour@)
                &&& d.hydration == fraction_of(value.hydration as int)
                &&& d.salt == fraction_of(value.salt as int)
                &&& (d.yeast is Some <==> value.yeast is Some)
                &&& (value.yeast matches Some(y) ==> d.yeast == Some(
                    fraction_of(y as int) as u64,
                ))
                &&& (d.mixins is Some <==> value.mixins is Some)
                &&& (value.mixins matches Some(m) ==> spaced_table(m@, d.mixins->Some_0@))
                &&& (d.starter is Some <==> value.starter is Some)
                &&& (value.starter matches Some(s) ==> d.starter == Some(
                    fraction_of(s as int) as u64,
                ))
            },
    {
        let flour = bakers_table(&value.flour)?;
        let hydration = normalize_value(&"hydration".to_string(), value.hydration)?;
        let salt = normalize_value(&"salt".to_string(), value.salt)?;
        let yeast = match value.yeast {
            Some(y) => Some(normalize_value(&"yeast".to_string(), y)?),
            None => None,
        };
        let mixins = match &value.mixins {
            Some(m) => Some(bakers_table(m)?),
            None => None,
        };
        let starter = match value.starter {
            Some(s) => Some(normalize_value(&"starter".to_string(), s)?),
            None => None,
        };
        Ok(
            DoughSpec {
                name: value.name,
                description: value.description,
                flour,
                hydration,
                salt,
                yeast,
                mixins,
                starter,
            },
        )
    }
}

impl StarterSpec {
    /// Validates a raw starter build: its flour table and its hydration.
    pub fn try_from_raw(value: RawStarterSpec) -> (r: Result<StarterSpec, PercentError>)
        ensures
            r is Ok <==> raw_in_range(value.flour@) && value.hydration <= FULL_PERCENT,
            r matches Err(PercentError::OutOfRange { value: v, .. }) ==> v > FULL_PERCENT,
            r matches Ok(s) ==> {
                &&& spaced_table(value.flour@, s.flour@)
                &&& s.hydration == fraction_of(value.hydration as int)
            },
    {
        let flour = bakers_table(&value.flour)?;
        let hydration = match Percent::try_from_raw(value.hydration) {
            Ok(p) => p.fraction(),
            Err(_) => {
                return Err(
                    PercentError::OutOfRange {
                        field: "hydration".to_string(),
                        value: value.hydration,
                    },
                );
            },
        };
        Ok(StarterSpec { flour, hydration })
    }
}

} // verus!
