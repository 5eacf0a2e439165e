use bread_formula::percent::BakersPercent;
use bread_formula::redistribution::adjust_for_starter;

fn mix(entries: &[(&str, u64)]) -> Vec<BakersPercent> {
    entries.iter().map(|(n, p)| BakersPercent { name: n.to_string(), percent: *p }).collect()
}

fn weights(r: &[bread_formula::ingredients::CalculatedIngredient]) -> Vec<(String, u64)> {
    r.iter().map(|c| (c.name.clone(), c.weight)).collect()
}

#[test]
fn no_starter_is_proportional() {
    let dough = mix(&[("A", 700_000), ("B", 300_000)]);
    let r = adjust_for_starter(581_395, &dough, 0, &mix(&[("A", 1_000_000)]));
    assert_eq!(weights(&r), vec![("A".to_string(), 406_976), ("B".to_string(), 174_418)]);
}

#[test]
fn starter_matching_the_mix_needs_no_clamp() {
    let dough = mix(&[("A", 500_000), ("B", 500_000)]);
    let starter = mix(&[("A", 500_000), ("B", 500_000)]);
    let r = adjust_for_starter(55_882, &dough, 2_941, &starter);
    assert_eq!(weights(&r), vec![("A".to_string(), 27_941), ("B".to_string(), 27_941)]);
}

#[test]
fn over_supplied_flour_is_clamped_to_zero() {
    let dough = mix(&[("A", 500_000), ("B", 500_000)]);
    let starter = mix(&[("A", 1_000_000)]);
    // pool 100_000: A wants 50_000 but the starter gives 80_000, so A is
    // clamped and its 30_000 shortfall joins the pool: B gets half of 130_000.
    let r = adjust_for_starter(20_000, &dough, 80_000, &starter);
    assert_eq!(weights(&r), vec![("A".to_string(), 0), ("B".to_string(), 65_000)]);
}

#[test]
fn starter_only_flour_keeps_its_contribution() {
    let dough = mix(&[("A", 1_000_000)]);
    let starter = mix(&[("A", 500_000), ("Rye", 500_000)]);
    let r = adjust_for_starter(90_000, &dough, 10_000, &starter);
    assert_eq!(weights(&r), vec![("A".to_string(), 90_000), ("Rye".to_string(), 5_000)]);
}

#[test]
fn starter_over_supplying_everything_gives_zeros() {
    let dough = mix(&[("A", 500_000), ("B", 500_000)]);
    let starter = mix(&[("A", 500_000), ("B", 500_000)]);
    let r = adjust_for_starter(0, &dough, 10_001, &starter);
    assert!(r.iter().all(|c| c.weight <= 1));
    assert_eq!(r.len(), 2);
}

#[test]
fn empty_mixes_give_nothing() {
    let r = adjust_for_starter(1_000, &Vec::new(), 0, &Vec::new());
    assert!(r.is_empty());
}
