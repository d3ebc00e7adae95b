//! Tests of the dice model: pattern parsing and randomized resolution.

use diceroll::evaluate;
use diceroll::roll_expr;
use diceroll::tokenize;
use diceroll::tokens_wf;
use diceroll::Dice;
use diceroll::Token;
use diceroll::Variant;

#[test]
fn parse_count_and_sides() {
    assert_eq!(
        Dice::from_string("2d6"),
        Some(Dice { count: 2, sides: 6, variant: Variant::Plain })
    );
    assert_eq!(
        Dice::from_string("10d100"),
        Some(Dice { count: 10, sides: 100, variant: Variant::Plain })
    );
}

#[test]
fn parse_default_count_is_one() {
    assert_eq!(
        Dice::from_string("d20"),
        Some(Dice { count: 1, sides: 20, variant: Variant::Plain })
    );
}

#[test]
fn parse_variant_suffixes() {
    assert_eq!(
        Dice::from_string("2d6c"),
        Some(Dice { count: 2, sides: 6, variant: Variant::Crit })
    );
    assert_eq!(
        Dice::from_string("2d6a"),
        Some(Dice { count: 2, sides: 6, variant: Variant::Advantage })
    );
    assert_eq!(
        Dice::from_string("2d6d"),
        Some(Dice { count: 2, sides: 6, variant: Variant::Disadvantage })
    );
}

#[test]
fn parse_variant_suffix_case_insensitive() {
    assert_eq!(
        Dice::from_string("2d6A"),
        Some(Dice { count: 2, sides: 6, variant: Variant::Advantage })
    );
    assert_eq!(
        Dice::from_string("d8C"),
        Some(Dice { count: 1, sides: 8, variant: Variant::Crit })
    );
}

#[test]
fn parse_rejects_non_matches() {
    assert_eq!(Dice::from_string("2d"), None);
    assert_eq!(Dice::from_string("d"), None);
    assert_eq!(Dice::from_string(""), None);
    assert_eq!(Dice::from_string("12"), None);
    assert_eq!(Dice::from_string("2d6x"), None);
    assert_eq!(Dice::from_string("x2d6"), None);
    assert_eq!(Dice::from_string("1d2d3"), None);
}

#[test]
fn parse_rejects_degenerate_groups() {
    assert_eq!(Dice::from_string("0d6"), None);
    assert_eq!(Dice::from_string("2d0"), None);
}

#[test]
fn parse_rejects_groups_beyond_i32() {
    assert_eq!(Dice::from_string("3000000000d6"), None);
    assert_eq!(Dice::from_string("2d3000000000"), None);
    assert_eq!(Dice::from_string("2000000000d2"), None);
}

#[test]
fn plain_roll_stays_in_range() {
    let d = Dice::from_string("2d6").unwrap();
    for _ in 0..200 {
        let o = d.roll();
        assert!(2 <= o.value && o.value <= 12);
        assert_eq!(o.first.len(), 2);
        for f in &o.first {
            assert!(1 <= *f && *f <= 6);
        }
        assert!(o.second.is_none());
        assert_eq!(o.first.iter().sum::<i32>(), o.value);
    }
}

#[test]
fn one_sided_dice_are_deterministic() {
    assert_eq!(Dice::from_string("3d1").unwrap().roll().value, 3);
    assert_eq!(Dice::from_string("1d1c").unwrap().roll().value, 2);
    assert_eq!(Dice::from_string("1d1a").unwrap().roll().value, 1);
    assert_eq!(Dice::from_string("1d1d").unwrap().roll().value, 1);
}

#[test]
fn advantage_takes_larger_roll_set() {
    let d = Dice::from_string("2d20a").unwrap();
    for _ in 0..100 {
        let o = d.roll();
        let s1: i32 = o.first.iter().sum();
        let s2: i32 = o.second.as_ref().unwrap().iter().sum();
        assert_eq!(o.value, s1.max(s2));
        // Advantage resolves at or above what Disadvantage would make of
        // the same two roll-sets.
        assert!(o.value >= s1.min(s2));
    }
}

#[test]
fn disadvantage_takes_smaller_roll_set() {
    let d = Dice::from_string("2d20d").unwrap();
    for _ in 0..100 {
        let o = d.roll();
        let s1: i32 = o.first.iter().sum();
        let s2: i32 = o.second.as_ref().unwrap().iter().sum();
        assert_eq!(o.value, s1.min(s2));
    }
}

#[test]
fn crit_sums_both_roll_sets() {
    let d = Dice::from_string("2d6c").unwrap();
    for _ in 0..100 {
        let o = d.roll();
        let s1: i32 = o.first.iter().sum();
        let s2: i32 = o.second.as_ref().unwrap().iter().sum();
        assert_eq!(o.value, s1 + s2);
        assert!(4 <= o.value && o.value <= 24);
    }
}

#[test]
fn rolls_vary_and_never_leave_the_die() {
    let d = Dice::from_string("1d6").unwrap();
    let mut seen = [false; 7];
    for _ in 0..200 {
        let o = d.roll();
        assert!(1 <= o.value && o.value <= 6);
        seen[o.value as usize] = true;
    }
    let distinct = seen.iter().filter(|s| **s).count();
    assert!(distinct >= 2, "200 draws of one die never varied");
}

#[test]
fn resolver_replaces_dice_and_logs_them() {
    let tokens = tokenize("2d6+3".to_string()).unwrap();
    let (resolved, logs) = roll_expr(tokens);
    assert_eq!(resolved.len(), 3);
    match resolved[0] {
        Token::Constant(v) => assert!(2 <= v && v <= 12),
        ref t => panic!("expected a constant, got {t:?}"),
    }
    assert_eq!(resolved[1], Token::Add);
    assert_eq!(resolved[2], Token::Constant(3));
    assert_eq!(logs.len(), 1);
    assert_eq!(logs[0].pos, 0);
    assert_eq!(
        logs[0].dice,
        Dice { count: 2, sides: 6, variant: Variant::Plain }
    );
    assert_eq!(logs[0].outcome.value, resolved[0].constant().unwrap());
    let total = evaluate(resolved).unwrap();
    assert!(5 <= total && total <= 15);
}

#[test]
fn tokens_wf_checks_dice_bounds() {
    let good = tokenize("2d6+3".to_string()).unwrap();
    assert!(tokens_wf(&good));
    let bad = vec![Token::Dice(Dice { count: 0, sides: 6, variant: Variant::Plain })];
    assert!(!tokens_wf(&bad));
}

#[test]
fn variant_suffix_letters() {
    assert_eq!(Variant::Plain.suffix(), "");
    assert_eq!(Variant::Crit.suffix(), "c");
    assert_eq!(Variant::Advantage.suffix(), "a");
    assert_eq!(Variant::Disadvantage.suffix(), "d");
}
