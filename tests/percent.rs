use bread_formula::dough_spec::{DoughSpec, RawDoughSpec, RawStarterSpec, StarterSpec};
use bread_formula::percent::{normalize, normalize_value, Percent, PercentError, FULL_PERCENT};

#[test]
fn normalize_divides_by_one_hundred() {
    let raw = vec![("white".to_string(), 7_000u64), ("rye".to_string(), 3_000u64)];
    let m = normalize(&raw).unwrap();
    assert_eq!(m[0].name, "white");
    assert_eq!(m[0].percent, 700_000);
    assert_eq!(m[1].percent, 300_000);
}

#[test]
fn normalize_round_trips() {
    let raw = vec![("a".to_string(), 0u64), ("b".to_string(), 1_234u64), ("c".to_string(), FULL_PERCENT)];
    let m = normalize(&raw).unwrap();
    for (r, f) in raw.iter().zip(m.iter()) {
        assert_eq!(f.percent / 100, r.1);
    }
}

#[test]
fn normalize_rejects_out_of_range() {
    let raw = vec![("a".to_string(), 5_000u64), ("b".to_string(), 10_001u64)];
    match normalize(&raw) {
        Err(PercentError::OutOfRange { field, value }) => {
            assert_eq!(field, "b");
            assert_eq!(value, 10_001);
        }
        Ok(_) => panic!("out of range value accepted"),
    }
}

#[test]
fn percent_bounds() {
    assert!(Percent::try_from_raw(FULL_PERCENT).is_ok());
    assert!(Percent::try_from_raw(FULL_PERCENT + 1).is_err());
    assert_eq!(Percent::try_from_raw(250).unwrap().fraction(), 25_000);
    assert!(normalize_value(&"salt".to_string(), 10_500).is_err());
}

fn raw_dough() -> RawDoughSpec {
    RawDoughSpec {
        name: "Country".to_string(),
        description: None,
        flour: vec![("bread_flour".to_string(), 8_000), ("whole_wheat".to_string(), 2_000)],
        hydration: 7_500,
        salt: 200,
        yeast: Some(50),
        mixins: Some(vec![("sunflower_seeds".to_string(), 1_000)]),
        starter: Some(1_500),
    }
}

#[test]
fn dough_spec_spaces_names_and_normalizes() {
    let d = DoughSpec::try_from_raw(raw_dough()).unwrap();
    assert_eq!(d.flour[0].name, "bread flour");
    assert_eq!(d.flour[0].percent, 800_000);
    assert_eq!(d.flour[1].name, "whole wheat");
    assert_eq!(d.hydration, 750_000);
    assert_eq!(d.salt, 20_000);
    assert_eq!(d.yeast, Some(5_000));
    assert_eq!(d.mixins.as_ref().unwrap()[0].name, "sunflower seeds");
    assert_eq!(d.starter, Some(150_000));
}

#[test]
fn dough_spec_names_field_out_of_range() {
    let mut raw = raw_dough();
    raw.salt = 20_000;
    match DoughSpec::try_from_raw(raw) {
        Err(PercentError::OutOfRange { field, value }) => {
            assert_eq!(field, "salt");
            assert_eq!(value, 20_000);
        }
        Ok(_) => panic!("out of range salt accepted"),
    }
}

#[test]
fn starter_spec_checks_hydration() {
    let ok = StarterSpec::try_from_raw(RawStarterSpec {
        flour: vec![("rye_flour".to_string(), 10_000)],
        hydration: 10_000,
    })
    .unwrap();
    assert_eq!(ok.flour[0].name, "rye flour");
    assert_eq!(ok.hydration, 1_000_000);
    assert!(StarterSpec::try_from_raw(RawStarterSpec { flour: vec![], hydration: 12_500 }).is_err());
}
