use bread_formula::dough_spec::{DoughSpec, StarterSpec};
use bread_formula::percent::{BakersPercent, ONE};
use bread_formula::recipe::{Formula, FormulaError, Recipe, MAX_WEIGHT};

fn mix(entries: &[(&str, u64)]) -> Vec<BakersPercent> {
    entries.iter().map(|(n, p)| BakersPercent { name: n.to_string(), percent: *p }).collect()
}

fn plain_dough() -> DoughSpec {
    DoughSpec {
        name: "Plain".to_string(),
        description: Some("half and half".to_string()),
        flour: mix(&[("A", 500_000), ("B", 500_000)]),
        hydration: 700_000,
        salt: 20_000,
        yeast: None,
        mixins: None,
        starter: None,
    }
}

fn levain_dough() -> DoughSpec {
    DoughSpec {
        name: "Levain".to_string(),
        description: None,
        flour: mix(&[("A", 500_000), ("B", 500_000)]),
        hydration: 700_000,
        salt: 0,
        yeast: None,
        mixins: None,
        starter: Some(100_000),
    }
}

fn levain_build() -> StarterSpec {
    StarterSpec { flour: mix(&[("A", 500_000), ("B", 500_000)]), hydration: ONE }
}

fn total(r: &Recipe) -> u64 {
    let mut sum: u64 = r.flours.iter().map(|f| f.weight).sum::<u64>() + r.water.weight + r.salt.weight;
    if let Some(y) = &r.yeast {
        sum += y.weight;
    }
    if let Some(m) = &r.mixins {
        sum += m.iter().map(|f| f.weight).sum::<u64>();
    }
    if let Some(s) = &r.starter {
        sum += s.flours.iter().map(|f| f.weight).sum::<u64>() + s.water.weight;
    }
    sum
}

fn weight_of(r: &Recipe, name: &str) -> u64 {
    r.flours.iter().find(|f| f.name == name).unwrap().weight
}

#[test]
fn plain_dough_of_one_kilogram() {
    // 1000.0 in thousandths; total flour 1000 / 1.72 = 581.395
    let r = Formula::new(plain_dough(), None).unwrap().into_recipe(1_000_000);
    assert_eq!(weight_of(&r, "A"), 290_697);
    assert_eq!(weight_of(&r, "B"), 290_697);
    assert_eq!(r.water.weight, 406_976);
    assert_eq!(r.water.name, "Water");
    assert_eq!(r.salt.weight, 11_627);
    assert_eq!(r.salt.name, "Salt");
    assert!(r.starter.is_none());
    assert_eq!(r.total_weight, 1_000_000);
    assert_eq!(r.description.as_deref(), Some("half and half"));
    let t = total(&r);
    assert!(t <= 1_000_000 && 1_000_000 - t <= 1_000);
}

#[test]
fn starter_matching_the_dough_mix() {
    let r = Formula::new(levain_dough(), Some(levain_build())).unwrap().into_recipe(100_000);
    // total flour 100 / 1.7 = 58.823; the starter is a tenth of it, half water.
    let s = r.starter.as_ref().unwrap();
    assert_eq!(s.amount, 5_882);
    assert_eq!(s.water.weight, 2_941);
    assert_eq!(s.flours[0].weight, 1_470);
    assert_eq!(s.flours[1].weight, 1_470);
    assert_eq!(weight_of(&r, "A"), 27_941);
    assert_eq!(weight_of(&r, "B"), 27_941);
    assert_eq!(r.water.weight, 41_176 - 2_941);
    assert_eq!(r.salt.weight, 0);
    let t = total(&r);
    assert!(t <= 100_000 && 100_000 - t <= 100);
}

#[test]
fn mixins_and_yeast_scale_with_flour() {
    let mut d = plain_dough();
    d.yeast = Some(10_000);
    d.mixins = Some(mix(&[("seeds", 100_000)]));
    let r = Formula::new(d, None).unwrap().into_recipe(1_000_000);
    // denominator 1 + 0.7 + 0.02 + 0.1 + 0.01 = 1.83; total flour 546_448
    let y = r.yeast.as_ref().unwrap();
    assert_eq!(y.name, "Yeast");
    assert_eq!(y.weight, 5_464);
    assert_eq!(r.mixins.as_ref().unwrap()[0].weight, 54_644);
    assert_eq!(weight_of(&r, "A"), 273_224);
    let t = total(&r);
    assert!(t <= 1_000_000 && 1_000_000 - t <= 1_000);
}

#[test]
fn converting_twice_gives_the_same_recipe() {
    let a = Formula::new(levain_dough(), Some(levain_build())).unwrap().into_recipe(900_000);
    let b = Formula::new(levain_dough(), Some(levain_build())).unwrap().into_recipe(900_000);
    assert_eq!(format!("{:?}", a), format!("{:?}", b));
}

#[test]
fn missing_starter_build_is_an_error() {
    let r = Formula::new(levain_dough(), None);
    assert!(matches!(r, Err(FormulaError::MissingStarterSpec)));
}

#[test]
fn starter_build_without_starter_amount_is_ignored() {
    let f = Formula::new(plain_dough(), Some(levain_build())).unwrap();
    assert!(f.starter.is_none());
}

#[test]
fn repeated_flour_is_invalid() {
    let mut d = plain_dough();
    d.flour = mix(&[("A", 500_000), ("A", 500_000)]);
    assert!(matches!(Formula::new(d, None), Err(FormulaError::InvalidFormula)));
}

#[test]
fn starter_water_beyond_hydration_is_invalid() {
    let mut d = levain_dough();
    d.hydration = 10_000;
    assert!(matches!(Formula::new(d, Some(levain_build())), Err(FormulaError::InvalidFormula)));
}

#[test]
fn fraction_above_one_is_invalid() {
    let mut d = plain_dough();
    d.salt = ONE + 1;
    assert!(matches!(Formula::new(d, None), Err(FormulaError::InvalidFormula)));
}

#[test]
fn largest_weight_converts() {
    let r = Formula::new(plain_dough(), None).unwrap().into_recipe(MAX_WEIGHT);
    let t = total(&r) as u128;
    assert!(t <= MAX_WEIGHT as u128);
    assert!(MAX_WEIGHT as u128 - t <= 10);
}

#[test]
fn zero_weight_gives_zero_weights() {
    let r = Formula::new(levain_dough(), Some(levain_build())).unwrap().into_recipe(0);
    assert_eq!(total(&r), 0);
}

#[test]
fn composition_counts_starter_flour_and_water() {
    let r = Formula::new(levain_dough(), Some(levain_build())).unwrap().into_recipe(100_000);
    let c = r.view_composition();
    // 27_941 * 2 added plus 5_882 - 2_941 in the starter
    assert_eq!(c.total_flour, 58_823);
    assert_eq!(c.flours[0].fraction, 27_941 * 1_000_000 / 58_823);
    assert_eq!(c.prefermented.len(), 2);
    assert_eq!(c.prefermented[0].fraction, 1_470 * 1_000_000 / 58_823);
    // water 38_235 + 2_941 of 58_823 is 0.699998...
    assert_eq!(c.hydration, 699_998);
    assert_eq!(c.salt.fraction, 0);
    assert!(c.yeast.is_none());
}
