use pyramid::decks::DeckData;
use pyramid::layout::{
    gen_2_decks, grid_position, layout_positions, scroll_backmap_step, scroll_gamemap_step,
    CardSlot, Deck, NUM_COLLUMNS,
};
use pyramid::settings::{get_color, LayoutSettings, NamedColor, UnknownColor};

#[test]
fn grid_position_walks_rows_of_five() {
    assert_eq!(grid_position(0, NUM_COLLUMNS), (1, 2));
    assert_eq!(grid_position(4, NUM_COLLUMNS), (5, 2));
    assert_eq!(grid_position(5, NUM_COLLUMNS), (1, 3));
    assert_eq!(grid_position(12, NUM_COLLUMNS), (3, 4));
}

#[test]
fn grid_position_single_column_stacks() {
    assert_eq!(grid_position(0, 1), (1, 2));
    assert_eq!(grid_position(3, 1), (1, 5));
}

#[test]
fn horizontal_layout_wraps_every_second_deck() {
    let slots = layout_positions(5, false);
    let expect = vec![
        CardSlot { primary_col: 0, primary_row: -1, secondary_col: 1, secondary_row: -1 },
        CardSlot { primary_col: 2, primary_row: -1, secondary_col: 3, secondary_row: -1 },
        CardSlot { primary_col: 0, primary_row: -2, secondary_col: 1, secondary_row: -2 },
        CardSlot { primary_col: 2, primary_row: -2, secondary_col: 3, secondary_row: -2 },
        CardSlot { primary_col: 0, primary_row: -3, secondary_col: 1, secondary_row: -3 },
    ];
    assert_eq!(slots, expect);
}

#[test]
fn vertical_layout_is_one_long_row() {
    let slots = layout_positions(3, true);
    let expect = vec![
        CardSlot { primary_col: 0, primary_row: -1, secondary_col: 0, secondary_row: -2 },
        CardSlot { primary_col: 1, primary_row: -1, secondary_col: 1, secondary_row: -2 },
        CardSlot { primary_col: 2, primary_row: -1, secondary_col: 2, secondary_row: -2 },
    ];
    assert_eq!(slots, expect);
}

#[test]
fn secondary_pile_offset_is_the_primary_count() {
    let data = DeckData {
        primary_cards: 12,
        name: b"Pyramid".to_vec(),
        file: b"decks/p.png".to_vec(),
        back_file: b"backs/p.png".to_vec(),
        secondary_cards: 4,
    };
    let both = gen_2_decks(&data);
    assert_eq!(both.primary.cards, 12);
    assert_eq!(both.primary.offset, 0);
    assert_eq!(both.secondary.cards, 4);
    assert_eq!(both.secondary.offset, 12);
    assert_eq!(both.name, b"Pyramid".to_vec());
}

#[test]
fn sprite_index_adds_the_pile_offset() {
    let secondary = Deck { cards: 4, offset: 12 };
    assert_eq!(secondary.sprite_index(0), 12);
    assert_eq!(secondary.sprite_index(3), 15);
}

#[test]
fn game_scroll_flips_axis_and_sign_with_orientation() {
    assert_eq!(scroll_gamemap_step(false, 2), (0, -140));
    assert_eq!(scroll_gamemap_step(false, -1), (0, 70));
    assert_eq!(scroll_gamemap_step(true, 2), (140, 0));
    assert_eq!(scroll_gamemap_step(true, -1), (-70, 0));
}

#[test]
fn menu_scroll_always_pans_against_the_wheel() {
    assert_eq!(scroll_backmap_step(3), -210);
    assert_eq!(scroll_backmap_step(-2), 140);
}

#[test]
fn color_names_resolve_to_the_palette() {
    assert_eq!(get_color(b"RED"), Ok(NamedColor::Red));
    assert_eq!(get_color(b"ORANGE"), Ok(NamedColor::Orange));
    assert_eq!(get_color(b"YELLOW"), Ok(NamedColor::Yellow));
    assert_eq!(get_color(b"GREEN"), Ok(NamedColor::Green));
    assert_eq!(get_color(b"BLUE"), Ok(NamedColor::Blue));
    assert_eq!(get_color(b"PURPLE"), Ok(NamedColor::Purple));
    assert_eq!(get_color(b"PINK"), Ok(NamedColor::Pink));
}

#[test]
fn unknown_color_name_is_an_error() {
    assert_eq!(get_color(b"MAUVE"), Err(UnknownColor));
    assert_eq!(get_color(b"red"), Err(UnknownColor));
}

#[test]
fn layout_settings_default_to_horizontal() {
    let l = LayoutSettings::new();
    assert!(!l.vertical);
}
