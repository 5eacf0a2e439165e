use bread_formula::ingredients::CalculatedIngredient;
use bread_formula::percent::{BakersPercent, ONE};
use bread_formula::starter::Starter;

fn half_and_half() -> Vec<BakersPercent> {
    vec![
        BakersPercent { name: "A".to_string(), percent: 500_000 },
        BakersPercent { name: "B".to_string(), percent: 500_000 },
    ]
}

#[test]
fn percent_flour_is_less_than_1() {
    // An amount of ten whole and a hydration of one whole.
    let starter = Starter { amount: 10 * ONE, flour: half_and_half(), hydration: ONE };
    assert!(starter.percent_flour() <= ONE);
}

#[test]
fn into_calculated_yields_correct_amounts() {
    // Amount 0.10 and hydration 1.0; weights in thousandths (100.0 is 100_000).
    let starter = Starter { amount: 100_000, flour: half_and_half(), hydration: ONE };
    let calculated = starter.into_calculated(100_000);

    let expected_flour = vec![
        CalculatedIngredient { name: "A".to_string(), weight: 2_500 },
        CalculatedIngredient { name: "B".to_string(), weight: 2_500 },
    ];
    let difference = calculated.flours.into_iter().find(|flour| !expected_flour.contains(flour));

    let expected_water = CalculatedIngredient { name: "Water".to_string(), weight: 5_000 };

    assert!(difference.is_none());
    assert_eq!(calculated.amount, 10_000);
    assert_eq!(calculated.water, expected_water);
}

#[test]
fn percent_water_follows_hydration() {
    let full = Starter { amount: 0, flour: half_and_half(), hydration: ONE };
    assert_eq!(full.percent_water(), 500_000);
    assert_eq!(full.percent_flour(), 500_000);
    // 1 / 1.7 = 0.588235...
    let stiff = Starter { amount: 0, flour: half_and_half(), hydration: 700_000 };
    assert_eq!(stiff.percent_water(), 588_235);
    assert_eq!(stiff.percent_flour(), 411_765);
    let none = Starter { amount: 0, flour: half_and_half(), hydration: 0 };
    assert_eq!(none.percent_water(), ONE);
}

#[test]
fn starter_weights_sum_to_its_amount() {
    let starter = Starter { amount: 200_000, flour: half_and_half(), hydration: 800_000 };
    let calculated = starter.into_calculated(500_000);
    assert_eq!(calculated.amount, 100_000);
    // water: floor(555_555 * 100_000 / 1e6) = 55_555
    assert_eq!(calculated.water.weight, 55_555);
    // 44_445 of flour halved: each half rounds down to 22_222.
    let flour: u64 = calculated.flours.iter().map(|f| f.weight).sum();
    assert_eq!(flour, 44_444);
    assert_eq!(flour + calculated.water.weight + 1, calculated.amount);
}
