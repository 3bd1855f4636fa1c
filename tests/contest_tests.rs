use nontransitive_dice::config::{ConfigError, ContestSpec};
use nontransitive_dice::contest::{contest, decide, percent, run_contest, summarize, Outcome};
use nontransitive_dice::dice::Dice;
use nontransitive_dice::text::decimal_string;

#[test]
fn counts_add_up_to_samples() {
    let r = contest(&Dice::Olive, &Dice::Yellow, 2, 3, 5000);
    assert_eq!(r.a_wins + r.b_wins + r.ties, 5000);
    assert_eq!(r.samples, 5000);
    assert_eq!(r.a_rolls, 2);
    assert_eq!(r.b_rolls, 3);
}

#[test]
fn outcome_follows_counts() {
    for rolls in 1..4 {
        let r = contest(&Dice::Magenta, &Dice::Blue, rolls, rolls, 301);
        let expected = if r.a_wins > r.b_wins {
            Outcome::AWins
        } else if r.a_wins == r.b_wins {
            Outcome::Tie
        } else {
            Outcome::BWins
        };
        assert_eq!(r.outcome, expected);
        let label = match r.outcome {
            Outcome::AWins => "Magenta",
            Outcome::BWins => "Blue",
            Outcome::Tie => "tie",
        };
        assert_eq!(r.winner, label);
    }
}

#[test]
fn single_sample_is_valid() {
    let r = contest(&Dice::Red, &Dice::Blue, 1, 1, 1);
    assert_eq!(r.a_wins + r.b_wins + r.ties, 1);
    assert_ne!(r.outcome, Outcome::Tie);
}

#[test]
fn red_against_blue_matches_grid() {
    let fa = Dice::Red.faces();
    let fb = Dice::Blue.faces();
    let mut wins = 0u32;
    let mut ties = 0u32;
    for x in fa.iter() {
        for y in fb.iter() {
            if x > y {
                wins += 1;
            } else if x == y {
                ties += 1;
            }
        }
    }
    let expected_win = wins as f64 / 36.0;
    let expected_tie = ties as f64 / 36.0;
    assert_eq!(wins, 21);
    assert_eq!(ties, 0);
    let r = contest(&Dice::Red, &Dice::Blue, 1, 1, 1_000_000);
    let win = r.a_wins as f64 / 1_000_000.0;
    let tie = r.ties as f64 / 1_000_000.0;
    let loss = r.b_wins as f64 / 1_000_000.0;
    assert!((win - expected_win).abs() < 0.01);
    assert!((tie - expected_tie).abs() < 0.01);
    assert!((loss - (1.0 - expected_win - expected_tie)).abs() < 0.01);
    assert_eq!(r.outcome, Outcome::AWins);
    assert_eq!(r.winner, "Red");
}

#[test]
fn decide_picks_larger_side() {
    assert_eq!(decide(5, 3), Outcome::AWins);
    assert_eq!(decide(3, 5), Outcome::BWins);
    assert_eq!(decide(4, 4), Outcome::Tie);
    assert_eq!(decide(0, 0), Outcome::Tie);
}

#[test]
fn summarize_derives_b_wins() {
    let r = summarize(&Dice::Red, &Dice::Blue, 1, 1, 50, 3, 0);
    assert_eq!(r.b_wins, 47);
    assert_eq!(r.outcome, Outcome::BWins);
    assert_eq!(r.winner, "Blue");
    let t = summarize(&Dice::Red, &Dice::Blue, 2, 2, 10, 4, 2);
    assert_eq!(t.b_wins, 4);
    assert_eq!(t.outcome, Outcome::Tie);
    assert_eq!(t.winner, "tie");
}

#[test]
fn percent_truncates() {
    assert_eq!(percent(1, 3), 33);
    assert_eq!(percent(2, 3), 66);
    assert_eq!(percent(3, 3), 100);
    assert_eq!(percent(0, 7), 0);
    assert_eq!(percent(u32::MAX, u32::MAX), 100);
}

#[test]
fn percentages_sum_near_hundred() {
    let cases = [(1u32, 1u32, 1u32), (1, 2, 0), (333, 333, 334), (7, 0, 0), (1, 1, 98)];
    for (a, b, t) in cases {
        let n = a + b + t;
        let sum = percent(a, n) + percent(b, n) + percent(t, n);
        assert!(sum >= 98 && sum <= 100);
    }
    assert_eq!(percent(1, 3) + percent(1, 3) + percent(1, 3), 99);
    let r = contest(&Dice::Yellow, &Dice::Olive, 3, 3, 997);
    let sum = percent(r.a_wins, 997) + percent(r.b_wins, 997) + percent(r.ties, 997);
    assert!(sum >= 98 && sum <= 100);
}

#[test]
fn report_line_for_a_win() {
    let r = summarize(&Dice::Red, &Dice::Blue, 1, 1, 100, 58, 0);
    assert_eq!(
        r.to_str(),
        "    Red  1 won with 58% wins and  0% ties, losing 42% of the time to    Blue  1"
    );
}

#[test]
fn report_line_for_b_win() {
    let r = summarize(&Dice::Magenta, &Dice::Yellow, 10, 10, 3, 1, 0);
    assert_eq!(
        r.to_str(),
        " Yellow 10 won with 66% wins and  0% ties, losing 33% of the time to Magenta 10"
    );
}

#[test]
fn report_line_for_a_tie() {
    let r = summarize(&Dice::Olive, &Dice::Blue, 1, 1, 4, 1, 2);
    assert_eq!(r.to_str(), "Both   Olive and    Blue tied");
}

#[test]
fn decimal_numerals() {
    assert_eq!(decimal_string(0), "0");
    assert_eq!(decimal_string(7), "7");
    assert_eq!(decimal_string(10), "10");
    assert_eq!(decimal_string(1_000_000), "1000000");
}

#[test]
fn spec_validation() {
    assert_eq!(ContestSpec::new(Dice::Red, Dice::Blue, 1, 1, 0), Err(ConfigError::NonPositiveSamples));
    assert_eq!(ContestSpec::new(Dice::Red, Dice::Blue, -1, 1, 10), Err(ConfigError::NonPositiveRolls));
    assert_eq!(ContestSpec::new(Dice::Red, Dice::Blue, 1, 0, 10), Err(ConfigError::NonPositiveRolls));
    let s = ContestSpec::new(Dice::Red, Dice::Blue, 2, 3, 10).unwrap();
    assert_eq!(s.a_rolls, 2);
    assert_eq!(s.b_rolls, 3);
    assert_eq!(s.samples, 10);
    let r = run_contest(&s);
    assert_eq!(r.a_wins + r.b_wins + r.ties, 10);
    assert_eq!((r.a, r.b, r.a_rolls, r.b_rolls), (Dice::Red, Dice::Blue, 2, 3));
}
