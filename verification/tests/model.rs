use pyramid::decks::{CurrentRunJson, EnabledJson, GameGlobals, run_deck_indices, remaining_picks};

#[test]
fn enable_sets_enabled_and_clears_disabled() {
    let mut e = EnabledJson::new();
    e.disable(4);
    assert!(e.check_disabled(&4));
    assert!(!e.check_enabled(&4));
    e.enable(4);
    assert!(e.check_enabled(&4));
    assert!(!e.check_disabled(&4));
}

#[test]
fn disable_sets_disabled_and_clears_enabled() {
    let mut e = EnabledJson::new();
    e.enable(2);
    assert!(e.check_enabled(&2));
    e.disable(2);
    assert!(e.check_disabled(&2));
    assert!(!e.check_enabled(&2));
}

#[test]
fn enable_is_idempotent() {
    let mut e = EnabledJson::new();
    e.enable(1);
    e.enable(1);
    assert_eq!(e.enabled, vec![1]);
    assert_eq!(e.disabled, Vec::<usize>::new());
}

#[test]
fn enable_disable_enable_converges_to_single_enable() {
    let mut a = EnabledJson::new();
    a.enable(0);
    a.enable(7);
    let mut b = EnabledJson { disabled: a.disabled.clone(), enabled: a.enabled.clone() };
    a.enable(7);
    a.disable(7);
    a.enable(7);
    b.enable(7);
    assert_eq!(a.disabled, b.disabled);
    let mut sa = a.enabled.clone();
    let mut sb = b.enabled.clone();
    sa.sort();
    sb.sort();
    assert_eq!(sa, sb);
}

#[test]
fn reconcile_defaults_everything_to_enabled() {
    let mut e = EnabledJson::new();
    e.reconcile_new_decks(10);
    assert_eq!(e.enabled, vec![0, 1, 2, 3, 4, 5, 6, 7, 8, 9]);
    assert_eq!(e.disabled, Vec::<usize>::new());
}

#[test]
fn reconcile_twice_is_reconcile_once() {
    let mut e = EnabledJson::new();
    e.disable(3);
    e.reconcile_new_decks(6);
    let enabled_once = e.enabled.clone();
    let disabled_once = e.disabled.clone();
    e.reconcile_new_decks(6);
    assert_eq!(e.enabled, enabled_once);
    assert_eq!(e.disabled, disabled_once);
}

#[test]
fn reconcile_respects_disabled_decks() {
    let mut e = EnabledJson::new();
    e.disable(3);
    e.reconcile_new_decks(5);
    assert_eq!(e.enabled, vec![0, 1, 2, 4]);
    assert_eq!(e.disabled, vec![3]);
}

#[test]
fn run_pick_and_unpick() {
    let mut r = CurrentRunJson::new();
    r.enable_deck(2);
    r.enable_deck(5);
    assert!(r.check_deck(&2));
    assert!(r.check_deck(&5));
    assert!(!r.check_deck(&1));
    r.disable_deck(2);
    assert!(!r.check_deck(&2));
    assert_eq!(r.decks, vec![5]);
}

#[test]
fn run_unpick_of_absent_deck_is_silent() {
    let mut r = CurrentRunJson::new();
    r.enable_deck(1);
    r.disable_deck(9);
    assert_eq!(r.decks, vec![1]);
}

#[test]
fn run_hand_membership() {
    let r = CurrentRunJson { decks: vec![], score: 0, hand: vec![4, 8] };
    assert!(r.check_hand(&4));
    assert!(!r.check_hand(&5));
}

#[test]
fn run_score_accumulates() {
    let mut r = CurrentRunJson::new();
    r.update_score(10);
    r.update_score(5);
    assert_eq!(r.score, 15);
}

#[test]
fn run_deck_indices_filters_in_catalog_order() {
    let r = CurrentRunJson { decks: vec![5, 2, 7], score: 0, hand: vec![] };
    assert_eq!(run_deck_indices(&r, 8), vec![2, 5, 7]);
    assert_eq!(run_deck_indices(&r, 6), vec![2, 5]);
    assert_eq!(run_deck_indices(&r, 0), Vec::<usize>::new());
}

#[test]
fn remaining_picks_counts_down() {
    let mut e = EnabledJson::new();
    e.enable(0);
    e.enable(1);
    e.enable(2);
    let mut r = CurrentRunJson::new();
    assert_eq!(remaining_picks(&e, &r), 3);
    r.enable_deck(1);
    assert_eq!(remaining_picks(&e, &r), 2);
}

#[test]
fn globals_clamp_decks_per_game() {
    let mut g = GameGlobals::new();
    assert_eq!(g.decks_per_game, 5);
    g.set_total_decks(3);
    g.clamp_decks_per_game();
    assert_eq!(g.decks_per_game, 3);
    g.set_total_decks(10);
    g.clamp_decks_per_game();
    assert_eq!(g.decks_per_game, 3);
}
