use pyramid::decks::{CurrentRunJson, EnabledJson};
use pyramid::state::{
    handle_choosing_cards, handle_ui_buttons, Effect, GameState, LastMenu, MenuItems,
    SettingsItems, TileColor,
};

fn fresh() -> (GameState, LastMenu, EnabledJson, CurrentRunJson) {
    (
        GameState::MainMenu,
        LastMenu { last: GameState::MainMenu },
        EnabledJson::new(),
        CurrentRunJson::new(),
    )
}

#[test]
fn deck_selection_then_back_returns_to_main_menu() {
    let (mut s, mut l, e, r) = fresh();
    let eff = handle_ui_buttons(&mut s, &mut l, &e, &r, false, MenuItems::DeckSelection);
    assert_eq!(eff, Effect::Nothing);
    assert_eq!(s, GameState::DeckSelection);
    assert_eq!(l.last, GameState::MainMenu);
    let eff = handle_ui_buttons(&mut s, &mut l, &e, &r, false, MenuItems::Back);
    assert_eq!(eff, Effect::Nothing);
    assert_eq!(s, GameState::MainMenu);
}

#[test]
fn back_into_registered_menu_is_a_noop() {
    let (_, _, e, r) = fresh();
    let mut s = GameState::Settings;
    let mut l = LastMenu { last: GameState::Settings };
    let eff = handle_ui_buttons(&mut s, &mut l, &e, &r, false, MenuItems::Back);
    assert_eq!(eff, Effect::Nothing);
    assert_eq!(s, GameState::Settings);
    assert_eq!(l.last, GameState::Settings);
}

#[test]
fn continue_without_save_stays_put() {
    let (mut s, mut l, e, r) = fresh();
    let eff = handle_ui_buttons(&mut s, &mut l, &e, &r, false, MenuItems::Continue);
    assert_eq!(eff, Effect::Denied);
    assert_eq!(s, GameState::MainMenu);
    assert_eq!(r.decks, Vec::<usize>::new());
    assert_eq!(r.score, 0);
}

#[test]
fn continue_with_save_loads_and_enters_pre_game() {
    let (mut s, mut l, e, r) = fresh();
    let eff = handle_ui_buttons(&mut s, &mut l, &e, &r, true, MenuItems::Continue);
    assert_eq!(eff, Effect::LoadRun);
    assert_eq!(s, GameState::PreGame);
}

#[test]
fn new_game_deletes_save_and_enters_pre_game() {
    let (mut s, mut l, e, r) = fresh();
    let eff = handle_ui_buttons(&mut s, &mut l, &e, &r, true, MenuItems::NewGame);
    assert_eq!(eff, Effect::DeleteSave);
    assert_eq!(s, GameState::PreGame);
}

#[test]
fn play_from_main_menu_enters_pre_game() {
    let (mut s, mut l, e, r) = fresh();
    let eff = handle_ui_buttons(&mut s, &mut l, &e, &r, false, MenuItems::Play);
    assert_eq!(eff, Effect::Nothing);
    assert_eq!(s, GameState::PreGame);
}

#[test]
fn play_in_pre_game_is_gated_on_full_pick() {
    let (_, _, mut e, mut r) = fresh();
    e.enable(0);
    e.enable(1);
    let mut s = GameState::PreGame;
    let mut l = LastMenu { last: GameState::MainMenu };
    let eff = handle_ui_buttons(&mut s, &mut l, &e, &r, false, MenuItems::Play);
    assert_eq!(eff, Effect::Denied);
    assert_eq!(s, GameState::PreGame);
    r.enable_deck(0);
    r.enable_deck(1);
    let eff = handle_ui_buttons(&mut s, &mut l, &e, &r, false, MenuItems::Play);
    assert_eq!(eff, Effect::Nothing);
    assert_eq!(s, GameState::InGame);
}

#[test]
fn back_from_in_game_flushes_run_to_main_menu() {
    let (_, _, e, r) = fresh();
    let mut s = GameState::InGame;
    let mut l = LastMenu { last: GameState::MainMenu };
    let eff = handle_ui_buttons(&mut s, &mut l, &e, &r, false, MenuItems::Back);
    assert_eq!(eff, Effect::SaveRun);
    assert_eq!(s, GameState::MainMenu);
}

#[test]
fn settings_path_tracks_last_menu() {
    let (mut s, mut l, e, r) = fresh();
    handle_ui_buttons(&mut s, &mut l, &e, &r, false, MenuItems::Settings);
    assert_eq!(s, GameState::Settings);
    assert_eq!(l.last, GameState::MainMenu);
    let eff = handle_ui_buttons(
        &mut s,
        &mut l,
        &e,
        &r,
        false,
        MenuItems::SettingsItems(SettingsItems::UI),
    );
    assert_eq!(eff, Effect::Nothing);
    assert_eq!(s, GameState::SettingsSubmenu);
    assert_eq!(l.last, GameState::Settings);
    handle_ui_buttons(&mut s, &mut l, &e, &r, false, MenuItems::Back);
    assert_eq!(s, GameState::Settings);
}

#[test]
fn quit_is_accepted_everywhere() {
    let (_, _, e, r) = fresh();
    for start in [GameState::MainMenu, GameState::PreGame, GameState::InGame, GameState::HowTo] {
        let mut s = start;
        let mut l = LastMenu { last: GameState::MainMenu };
        let eff = handle_ui_buttons(&mut s, &mut l, &e, &r, false, MenuItems::Quit);
        assert_eq!(eff, Effect::Nothing);
        assert_eq!(s, GameState::Quit);
    }
}

#[test]
fn save_in_deck_selection_flushes_enabled_set() {
    let (_, _, e, r) = fresh();
    let mut s = GameState::DeckSelection;
    let mut l = LastMenu { last: GameState::MainMenu };
    let eff = handle_ui_buttons(&mut s, &mut l, &e, &r, false, MenuItems::Save);
    assert_eq!(eff, Effect::SaveEnabled);
    assert_eq!(s, GameState::DeckSelection);
}

#[test]
fn paging_items_ask_for_page_moves() {
    let (_, _, e, r) = fresh();
    let mut s = GameState::DeckSelection;
    let mut l = LastMenu { last: GameState::MainMenu };
    assert_eq!(handle_ui_buttons(&mut s, &mut l, &e, &r, false, MenuItems::Left), Effect::PageLeft);
    assert_eq!(
        handle_ui_buttons(&mut s, &mut l, &e, &r, false, MenuItems::Right),
        Effect::PageRight
    );
    assert_eq!(s, GameState::DeckSelection);
}

#[test]
fn unoffered_item_changes_nothing() {
    let (_, _, e, r) = fresh();
    let mut s = GameState::InGame;
    let mut l = LastMenu { last: GameState::MainMenu };
    let eff = handle_ui_buttons(&mut s, &mut l, &e, &r, false, MenuItems::Save);
    assert_eq!(eff, Effect::Nothing);
    assert_eq!(s, GameState::InGame);
}

#[test]
fn deck_click_toggles_standing_preference() {
    let (_, _, mut e, mut r) = fresh();
    let s = GameState::DeckSelection;
    let c = handle_choosing_cards(&s, &mut e, &mut r, 3);
    assert_eq!(c, TileColor::Normal);
    assert!(e.check_enabled(&3));
    let c = handle_choosing_cards(&s, &mut e, &mut r, 3);
    assert_eq!(c, TileColor::Disabled);
    assert!(e.check_disabled(&3));
    assert_eq!(r.decks, Vec::<usize>::new());
}

#[test]
fn deck_click_in_pre_game_toggles_run_pick() {
    let (_, _, mut e, mut r) = fresh();
    e.enable(6);
    let s = GameState::PreGame;
    let c = handle_choosing_cards(&s, &mut e, &mut r, 6);
    assert_eq!(c, TileColor::Enabled);
    assert!(r.check_deck(&6));
    let c = handle_choosing_cards(&s, &mut e, &mut r, 6);
    assert_eq!(c, TileColor::Normal);
    assert!(!r.check_deck(&6));
    assert!(e.check_enabled(&6));
}
