use nontransitive_dice::config::ConfigError;
use nontransitive_dice::contest::{summarize, ContestResults};
use nontransitive_dice::dice::{catalog, Dice};
use nontransitive_dice::ranking::rank;
use nontransitive_dice::schedule::{plan, schedule_all};

#[test]
fn plan_enumerates_pairs_then_rolls() {
    let specs = plan(&catalog(), 1, 10, 100).unwrap();
    assert_eq!(specs.len(), 100);
    assert_eq!((specs[0].a, specs[0].b, specs[0].a_rolls), (Dice::Red, Dice::Blue, 1));
    assert_eq!((specs[9].a, specs[9].b, specs[9].b_rolls), (Dice::Red, Dice::Blue, 10));
    assert_eq!((specs[10].a, specs[10].b, specs[10].a_rolls), (Dice::Red, Dice::Olive, 1));
    assert_eq!((specs[40].a, specs[40].b), (Dice::Blue, Dice::Olive));
    assert_eq!((specs[99].a, specs[99].b, specs[99].a_rolls), (Dice::Yellow, Dice::Magenta, 10));
    assert!(specs.iter().all(|s| s.a_rolls == s.b_rolls && s.samples == 100));
}

#[test]
fn plan_rejects_bad_counts() {
    assert_eq!(plan(&catalog(), 1, 10, 0), Err(ConfigError::NonPositiveSamples));
    assert_eq!(plan(&catalog(), 0, 10, 5), Err(ConfigError::NonPositiveRolls));
}

#[test]
fn plan_edge_cases() {
    assert_eq!(plan(&catalog(), 3, 2, 5).unwrap().len(), 0);
    assert_eq!(plan(&vec![Dice::Red], 1, 10, 5).unwrap().len(), 0);
    assert_eq!(plan(&vec![], 1, 10, 5).unwrap().len(), 0);
    assert_eq!(plan(&vec![Dice::Red, Dice::Blue], 4, 4, 5).unwrap().len(), 1);
}

fn structure(rs: &[ContestResults]) -> Vec<(Dice, Dice, usize, usize)> {
    rs.iter().map(|r| (r.a, r.b, r.a_rolls, r.b_rolls)).collect()
}

#[test]
fn schedule_structure_repeats() {
    let dice = catalog();
    let first = schedule_all(&dice, 1, 3, 50).unwrap();
    let second = schedule_all(&dice, 1, 3, 50).unwrap();
    assert_eq!(first.len(), 30);
    assert_eq!(structure(&first), structure(&second));
    assert!(first.iter().all(|r| r.a_wins + r.b_wins + r.ties == 50));
}

#[test]
fn schedule_rejects_zero_samples() {
    assert!(matches!(schedule_all(&catalog(), 1, 3, 0), Err(ConfigError::NonPositiveSamples)));
}

#[test]
fn ranking_orders_by_wins() {
    let mut results = Vec::new();
    for _ in 0..3 {
        results.push(summarize(&Dice::Red, &Dice::Blue, 1, 1, 10, 9, 0));
    }
    for _ in 0..47 {
        results.push(summarize(&Dice::Red, &Dice::Blue, 1, 1, 10, 1, 0));
    }
    let ranking = rank(&results);
    let got: Vec<(String, usize)> = ranking.into_iter().map(|e| (e.label, e.wins)).collect();
    assert_eq!(got, vec![("Blue".to_string(), 47), ("Red".to_string(), 3)]);
}

#[test]
fn ranking_of_nothing_is_empty() {
    assert!(rank(&Vec::new()).is_empty());
}

#[test]
fn ranking_counts_ties_and_breaks_equal_counts() {
    let results = vec![
        summarize(&Dice::Yellow, &Dice::Olive, 1, 1, 4, 1, 2),
        summarize(&Dice::Yellow, &Dice::Olive, 1, 1, 4, 0, 0),
        summarize(&Dice::Magenta, &Dice::Red, 1, 1, 4, 3, 0),
        summarize(&Dice::Magenta, &Dice::Red, 1, 1, 4, 3, 0),
    ];
    let got: Vec<(String, usize)> = rank(&results).into_iter().map(|e| (e.label, e.wins)).collect();
    assert_eq!(
        got,
        vec![("Magenta".to_string(), 2), ("Olive".to_string(), 1), ("tie".to_string(), 1)]
    );
}
