use pyramid::decks::{EnabledJson, GameGlobals};
use pyramid::page::{num_pages, page_item_count, page_items, CurrPage, PAGE_SIZE};
use pyramid::state::GameState;

#[test]
fn left_is_rejected_at_first_page() {
    let mut p = CurrPage::new();
    assert!(!p.try_left());
    assert_eq!(p.index, 0);
}

#[test]
fn right_then_left_returns() {
    let mut p = CurrPage::new();
    assert!(p.try_right(17, PAGE_SIZE));
    assert_eq!(p.index, 1);
    assert!(p.try_left());
    assert_eq!(p.index, 0);
}

#[test]
fn right_is_rejected_exactly_past_the_items() {
    let mut p = CurrPage::new();
    // 17 items, pages of 8: pages start at 0, 8 and 16.
    assert!(p.try_right(17, 8));
    assert!(p.try_right(17, 8));
    assert_eq!(p.index, 2);
    // (2 + 1) * 8 = 24 > 17: rejected.
    assert!(!p.try_right(17, 8));
    assert_eq!(p.index, 2);
}

#[test]
fn right_boundary_is_inclusive() {
    // 16 items fill exactly two pages; (1 + 1) * 8 = 16 <= 16 still moves.
    let mut p = CurrPage::new();
    assert!(p.try_right(16, 8));
    assert!(p.try_right(16, 8));
    assert_eq!(p.index, 2);
    assert!(!p.try_right(16, 8));
}

#[test]
fn reset_returns_to_first_page() {
    let mut p = CurrPage::new();
    p.try_right(100, 8);
    p.try_right(100, 8);
    p.reset();
    assert_eq!(p.index, 0);
}

#[test]
fn num_pages_rounds_up() {
    assert_eq!(num_pages(0, 8), 0);
    assert_eq!(num_pages(3, 8), 1);
    assert_eq!(num_pages(8, 8), 1);
    assert_eq!(num_pages(9, 8), 2);
    assert_eq!(num_pages(17, 8), 3);
}

#[test]
fn pre_game_with_three_enabled_decks_is_one_page() {
    // Enabled decks 2, 5 and 7 with pages of 8: one page holding exactly
    // those, in that order, and the right arrow rejected.
    let enabled = vec![2, 5, 7];
    assert_eq!(num_pages(enabled.len(), 8), 1);
    let mut p = CurrPage::new();
    assert_eq!(page_items(&enabled, p.index, 8), vec![2, 5, 7]);
    assert!(!p.try_right(enabled.len(), 8));
    assert_eq!(p.index, 0);
}

#[test]
fn page_items_windows_in_order() {
    let items: Vec<usize> = (0..10).collect();
    assert_eq!(page_items(&items, 0, 4), vec![0, 1, 2, 3]);
    assert_eq!(page_items(&items, 1, 4), vec![4, 5, 6, 7]);
    assert_eq!(page_items(&items, 2, 4), vec![8, 9]);
    assert_eq!(page_items(&items, 3, 4), Vec::<usize>::new());
}

#[test]
fn page_item_count_follows_the_screen() {
    let mut e = EnabledJson::new();
    e.enable(1);
    e.enable(4);
    let mut g = GameGlobals::new();
    g.set_total_decks(9);
    assert_eq!(page_item_count(&GameState::PreGame, &e, &g), 2);
    assert_eq!(page_item_count(&GameState::DeckSelection, &e, &g), 9);
}
