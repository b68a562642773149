//! The screen state machine: which screen is active, the single-slot
//! "last menu" register that `Back` returns to, and the one dispatcher
//! that turns a clicked menu item into a transition plus an effect for
//! the caller to perform.
//!
//! Invalid transitions are unrepresentable: the dispatcher is a total
//! function over a closed enumeration, and a pair of screen and item
//! that no screen ever offers leaves the machine unchanged.

use vstd::prelude::*;
use crate::decks::{
    run_wf, CurrentRunJson, EnabledJson, enable_step_enabled, remove_step,
};

verus! {

/// The screens; exactly one is active at a time. `MainMenu` is initial
/// and `Quit` is terminal.
#[derive(Clone, Copy, Debug, PartialEq, Eq, Structural)]
pub enum GameState {
    Settings,
    SettingsSubmenu,
    MainMenu,
    HowTo,
    PreGame,
    InGame,
    Quit,
    DeckSelection,
}

/// The pages of the settings screen.
#[derive(Clone, Copy, Debug, PartialEq, Eq, Structural)]
pub enum SettingsSubmenus {
    Closed,
    UI,
    Layout,
}

/// The entries of the settings screen.
#[derive(Clone, Copy, Debug, PartialEq, Eq, Structural)]
pub enum SettingsItems {
    SubItem,
    Layout,
    UI,
}

/// Which settings page is open.
pub struct SettingsPage {
    pub page: SettingsSubmenus,
}

/// The closed set of clickable menu items, routed through one dispatcher
/// per active screen.
#[derive(Clone, Copy, Debug, PartialEq, Eq, Structural)]
pub enum MenuItems {
    SettingsItems(SettingsItems),
    Settings,
    Play,
    Back,
    Continue,
    NewGame,
    DeckSelection,
    Save,
    Left,
    Right,
    HowToPlay,
    Quit,
}

/// The single-slot register holding the menu that `Back` returns to.
pub struct LastMenu {
    pub last: GameState,
}

/// What the caller must do after a transition; everything the machine
/// itself cannot: file reads and writes, page moves, visual feedback.
#[derive(Clone, Copy, Debug, PartialEq, Eq, Structural)]
pub enum Effect {
    /// Nothing beyond rebuilding the new screen.
    Nothing,
    /// The click is rejected; signal it visually and change nothing.
    Denied,
    /// Load the current-run document, then enter the new screen.
    LoadRun,
    /// Delete the current-run document.
    DeleteSave,
    /// Write the enabled-deck document.
    SaveEnabled,
    /// Write the current-run document.
    SaveRun,
    /// Ask the pagination cursor to move one page left.
    PageLeft,
    /// Ask the pagination cursor to move one page right.
    PageRight,
}

/// The transition table: from the active screen, the `Back` register, the
/// clicked item, whether a save file exists and whether every required
/// deck is picked, to the next screen, the new register and the effect.
///
/// Rows, in words:
/// - `Play` from `MainMenu` enters `PreGame`; from `PreGame` it enters
///   `InGame` only once all required decks are picked, else it is denied.
/// - `Continue` from `MainMenu` enters `PreGame` after loading the save,
///   and is denied (no state change) when no save file exists.
/// - `NewGame` from `MainMenu` deletes the save file and enters `PreGame`.
/// - `DeckSelection`, `Settings` and `HowToPlay` branch from `MainMenu`,
///   the first two noting `MainMenu` in the register.
/// - The settings `UI` entry opens the submenu, noting `Settings`.
/// - `Save` in `DeckSelection` writes the enabled-deck document.
/// - `Back` from `InGame` flushes the run and returns to `MainMenu`; from
///   any other screen it returns to the registered menu, guarded to do
///   nothing when that menu is already active.
/// - `Quit` is accepted from every screen.
/// - `Left` and `Right` page the deck grids of `DeckSelection`/`PreGame`.
/// - Any pair no screen offers leaves everything unchanged.
pub open spec fn menu_step(
    s: GameState,
    last: GameState,
    item: MenuItems,
    save_exists: bool,
    all_picked: bool,
) -> (GameState, GameState, Effect) {
    match (s, item) {
        (GameState::MainMenu, MenuItems::Play) => (GameState::PreGame, last, Effect::Nothing),
        (GameState::MainMenu, MenuItems::Continue) => {
            if save_exists {
                (GameState::PreGame, last, Effect::LoadRun)
            } else {
                (GameState::MainMenu, last, Effect::Denied)
            }
        },
        (GameState::MainMenu, MenuItems::NewGame) => (GameState::PreGame, last, Effect::DeleteSave),
        (GameState::MainMenu, MenuItems::DeckSelection) => (
            GameState::DeckSelection,
            GameState::MainMenu,
            Effect::Nothing,
        ),
        (GameState::MainMenu, MenuItems::Settings) => (
            GameState::Settings,
            GameState::MainMenu,
            Effect::Nothing,
        ),
        (GameState::MainMenu, MenuItems::HowToPlay) => (GameState::HowTo, last, Effect::Nothing),
        (GameState::Settings, MenuItems::SettingsItems(SettingsItems::UI)) => (
            GameState::SettingsSubmenu,
            GameState::Settings,
            Effect::Nothing,
        ),
        (GameState::PreGame, MenuItems::Play) => {
            if all_picked {
                (GameState::InGame, last, Effect::Nothing)
            } else {
                (GameState::PreGame, last, Effect::Denied)
            }
        },
        (GameState::DeckSelection, MenuItems::Save) => (s, last, Effect::SaveEnabled),
        (GameState::InGame, MenuItems::Back) => (GameState::MainMenu, last, Effect::SaveRun),
        (GameState::DeckSelection, MenuItems::Back)
        | (GameState::Settings, MenuItems::Back)
        | (GameState::SettingsSubmenu, MenuItems::Back)
        | (GameState::HowTo, MenuItems::Back)
        | (GameState::PreGame, MenuItems::Back) => {
            if s == last {
                (s, last, Effect::Nothing)
            } else {
                (last, last, Effect::Nothing)
            }
        },
        (_, MenuItems::Quit) => (GameState::Quit, last, Effect::Nothing),
        (GameState::DeckSelection, MenuItems::Left)
        | (GameState::PreGame, MenuItems::Left) => (s, last, Effect::PageLeft),
        (GameState::DeckSelection, MenuItems::Right)
        | (GameState::PreGame, MenuItems::Right) => (s, last, Effect::PageRight),
        _ => (s, last, Effect::Nothing),
    }
}

/// Dispatch one clicked menu item against the active screen, exactly as
/// [`menu_step`] states; "all required decks picked" is the enabled list
/// and the run's picks having the same length.
pub fn handle_ui_buttons(
    state: &mut GameState,
    last_menu: &mut LastMenu,
    enabled_json: &EnabledJson,
    current_run_json: &CurrentRunJson,
    save_exists: bool,
    item: MenuItems,
) -> (eff: Effect)
    ensures
        ({
            let (s2, l2, e2) = menu_step(
                *old(state),
                old(last_menu).last,
                item,
                save_exists,
                current_run_json.decks@.len() == enabled_json.enabled@.len(),
            );
            &&& *final(state) == s2
            &&& final(last_menu).last == l2
            &&& eff == e2
        }),
{
    let all_picked = current_run_json.decks.len() == enabled_json.enabled.len();
    match (*state, item) {
        (GameState::MainMenu, MenuItems::Play) => {
            *state = GameState::PreGame;
            Effect::Nothing
        },
        (GameState::MainMenu, MenuItems::Continue) => {
            if save_exists {
                *state = GameState::PreGame;
                Effect::LoadRun
            } else {
                Effect::Denied
            }
        },
        (GameState::MainMenu, MenuItems::NewGame) => {
            *state = GameState::PreGame;
            Effect::DeleteSave
        },
        (GameState::MainMenu, MenuItems::DeckSelection) => {
            last_menu.last = GameState::MainMenu;
            *state = GameState::DeckSelection;
            Effect::Nothing
        },
        (GameState::MainMenu, MenuItems::Settings) => {
            last_menu.last = GameState::MainMenu;
            *state = GameState::Settings;
            Effect::Nothing
        },
        (GameState::MainMenu, MenuItems::HowToPlay) => {
            *state = GameState::HowTo;
            Effect::Nothing
        },
        (GameState::Settings, MenuItems::SettingsItems(SettingsItems::UI)) => {
            last_menu.last = GameState::Settings;
            *state = GameState::SettingsSubmenu;
            Effect::Nothing
        },
        (GameState::PreGame, MenuItems::Play) => {
            if all_picked {
                *state = GameState::InGame;
                Effect::Nothing
            } else {
                Effect::Denied
            }
        },
        (GameState::DeckSelection, MenuItems::Save) => Effect::SaveEnabled,
        (GameState::InGame, MenuItems::Back) => {
            *state = GameState::MainMenu;
            Effect::SaveRun
        },
        (GameState::DeckSelection, MenuItems::Back)
        | (GameState::Settings, MenuItems::Back)
        | (GameState::SettingsSubmenu, MenuItems::Back)
        | (GameState::HowTo, MenuItems::Back)
        | (GameState::PreGame, MenuItems::Back) => {
            if *state != last_menu.last {
                *state = last_menu.last;
            }
            Effect::Nothing
        },
        (_, MenuItems::Quit) => {
            *state = GameState::Quit;
            Effect::Nothing
        },
        (GameState::DeckSelection, MenuItems::Left)
        | (GameState::PreGame, MenuItems::Left) => Effect::PageLeft,
        (GameState::DeckSelection, MenuItems::Right)
        | (GameState::PreGame, MenuItems::Right) => Effect::PageRight,
        _ => Effect::Nothing,
    }
}

/// The visual state the caller should give a clicked deck tile.
#[derive(Clone, Copy, Debug, PartialEq, Eq, Structural)]
pub enum TileColor {
    /// The plain tile color.
    Normal,
    /// Highlighted as picked for the run.
    Enabled,
    /// Greyed out as disabled.
    Disabled,
}

/// One click on a deck tile. In `PreGame` it toggles the deck in and out
/// of the run (the tile exists only for an enabled deck); on the deck
/// selection screen it toggles the standing enabled/disabled preference.
pub fn handle_choosing_cards(
    state: &GameState,
    enabled_json: &mut EnabledJson,
    current_run_json: &mut CurrentRunJson,
    deck_num: usize,
) -> (c: TileColor)
    requires
        old(enabled_json).wf(),
        *state == GameState::PreGame ==> run_wf(*old(current_run_json), *old(enabled_json))
            && old(enabled_json).check_enabled_spec(deck_num),
    ensures
        final(enabled_json).wf(),
        *state == GameState::PreGame ==> {
            &&& *final(enabled_json) == *old(enabled_json)
            &&& final(current_run_json).score == old(current_run_json).score
            &&& final(current_run_json).hand@ == old(current_run_json).hand@
            &&& run_wf(*final(current_run_json), *final(enabled_json))
            &&& if old(current_run_json).check_deck_spec(deck_num) {
                final(current_run_json).decks@ == old(current_run_json).decks@.remove_value(
                    deck_num,
                ) && c == TileColor::Normal
            } else {
                final(current_run_json).decks@ == old(current_run_json).decks@.push(deck_num)
                    && c == TileColor::Enabled
            }
        },
        *state != GameState::PreGame ==> {
            &&& *final(current_run_json) == *old(current_run_json)
            &&& if old(enabled_json).check_enabled_spec(deck_num) {
                final(enabled_json).enabled@ == remove_step(old(enabled_json).enabled@, deck_num)
                    && final(enabled_json).disabled@ == enable_step_enabled(
                    old(enabled_json).disabled@,
                    deck_num,
                ) && c == TileColor::Disabled
            } else {
                final(enabled_json).enabled@ == enable_step_enabled(
                    old(enabled_json).enabled@,
                    deck_num,
                ) && final(enabled_json).disabled@ == remove_step(
                    old(enabled_json).disabled@,
                    deck_num,
                ) && c == TileColor::Normal
            }
        },
{
    if *state == GameState::PreGame {
        let was_picked = current_run_json.check_deck(&deck_num);
        if was_picked {
            current_run_json.disable_deck(deck_num);
            proof {
                lemma_unpick_keeps_run_wf(
                    old(current_run_json).decks@,
                    *enabled_json,
                    deck_num,
                );
            }
            TileColor::Normal
        } else {
            current_run_json.enable_deck(deck_num);
            proof {
                lemma_pick_keeps_run_wf(
                    old(current_run_json).decks@,
                    *enabled_json,
                    deck_num,
                );
            }
            TileColor::Enabled
        }
    } else {
        if enabled_json.check_enabled(&deck_num) {
            enabled_json.disable(deck_num);
            TileColor::Disabled
        } else {
            enabled_json.enable(deck_num);
            TileColor::Normal
        }
    }
}

/// Removing a pick keeps the run consistent with the preference.
proof fn lemma_unpick_keeps_run_wf(decks: Seq<usize>, enabled_json: EnabledJson, deck: usize)
    requires
        decks.no_duplicates(),
        forall|d: usize| #[trigger] decks.contains(d) ==> enabled_json.check_enabled_spec(d),
    ensures
        decks.remove_value(deck).no_duplicates(),
        forall|d: usize|
            #[trigger] decks.remove_value(deck).contains(d) ==> enabled_json.check_enabled_spec(d),
{
    let d2 = decks.remove_value(deck);
    decks.index_of_first_ensures(deck);
    let kopt = decks.index_of_first(deck);
    if kopt is Some {
        let k: int = kopt->0;
        assert forall|d: usize| #[trigger] d2.contains(d) implies decks.contains(d) by {
            let i = choose|i: int| 0 <= i < d2.len() && d2[i] == d;
            if i < k {
                assert(decks[i] == d);
            } else {
                assert(decks[i + 1] == d);
            }
        }
        assert(d2.no_duplicates()) by {
            assert forall|i: int, j: int| 0 <= i < d2.len() && 0 <= j < d2.len() && i != j
                implies d2[i] != d2[j] by {
                let bi: int = if i < k { i } else { i + 1 };
                let bj: int = if j < k { j } else { j + 1 };
                assert(d2[i] == decks[bi]);
                assert(d2[j] == decks[bj]);
            }
        }
    }
}

/// Adding an enabled deck keeps the run consistent with the preference.
proof fn lemma_pick_keeps_run_wf(decks: Seq<usize>, enabled_json: EnabledJson, deck: usize)
    requires
        decks.no_duplicates(),
        !decks.contains(deck),
        enabled_json.check_enabled_spec(deck),
        forall|d: usize| #[trigger] decks.contains(d) ==> enabled_json.check_enabled_spec(d),
    ensures
        decks.push(deck).no_duplicates(),
        forall|d: usize|
            #[trigger] decks.push(deck).contains(d) ==> enabled_json.check_enabled_spec(d),
{
    let d2 = decks.push(deck);
    assert forall|d: usize| #[trigger] d2.contains(d) implies d == deck || decks.contains(d) by {
        let i = choose|i: int| 0 <= i < d2.len() && d2[i] == d;
        if i < decks.len() {
            assert(decks[i] == d);
        }
    }
    assert(d2.no_duplicates()) by {
        assert forall|i: int, j: int| 0 <= i < d2.len() && 0 <= j < d2.len() && i != j
            implies d2[i] != d2[j] by {
            if i < decks.len() && j < decks.len() {
            } else if i < decks.len() {
                assert(decks.contains(decks[i]));
            } else if j < decks.len() {
                assert(decks.contains(decks[j]));
            }
        }
    }
}

/// Law: from `MainMenu`, selecting the deck-selection screen and then
/// `Back` returns to `MainMenu`, whatever the register held before.
pub proof fn lemma_deck_selection_then_back(
    last: GameState,
    save_exists: bool,
    all_picked: bool,
)
    ensures
        ({
            let (s1, l1, _) = menu_step(
                GameState::MainMenu,
                last,
                MenuItems::DeckSelection,
                save_exists,
                all_picked,
            );
            let (s2, l2, _) = menu_step(s1, l1, MenuItems::Back, save_exists, all_picked);
            s2 == GameState::MainMenu
        }),
{
}

/// Law: `Back` fired while the registered menu is already the active
/// screen changes nothing (the guard against a redundant re-entry);
/// `InGame` is the one screen where `Back` always leaves.
pub proof fn lemma_back_into_current_is_noop(
    s: GameState,
    save_exists: bool,
    all_picked: bool,
)
    requires
        s != GameState::InGame,
    ensures
        menu_step(s, s, MenuItems::Back, save_exists, all_picked) == (s, s, Effect::Nothing),
{
}

} // verus!
