//! Board and grid arithmetic, in whole grid units. The renderer turns a
//! unit into pixels by multiplying with its card spacing; everything that
//! decides *which* cell a card lands in is here. The layout's quirks,
//! the wrap order and the sign flip between orientations, are part of
//! the contract: redrawn screens must reproduce them exactly.

use vstd::prelude::*;
use crate::decks::DeckData;

verus! {

/// Columns of the deck-selection grid.
pub const NUM_COLLUMNS: usize = 5;

/// One pile of cards: how many the pile holds and where its sprites
/// start inside the shared sheet.
#[derive(Clone, Copy, Debug, PartialEq, Eq, Structural)]
pub struct Deck {
    pub cards: usize,
    pub offset: usize,
}

impl Deck {
    /// The sprite-sheet index of card `index` of this pile.
    pub fn sprite_index(&self, index: usize) -> (r: usize)
        requires
            index + self.offset <= usize::MAX,
        ensures
            r == index + self.offset,
    {
        index + self.offset
    }
}

/// A catalog entry resolved for play: the primary and secondary piles
/// sharing one sprite sheet, and the display name.
#[derive(Clone, Debug)]
pub struct DecksTogether {
    pub primary: Deck,
    pub secondary: Deck,
    pub name: Vec<u8>,
}

/// Build the two piles of one catalog entry. The secondary pile starts
/// right after the primaries in the sheet, so its offset is the primary
/// card count: derived, never stored, so the two cannot drift apart.
pub fn gen_2_decks(data: &DeckData) -> (r: DecksTogether)
    ensures
        r.primary.cards == data.primary_cards,
        r.primary.offset == 0,
        r.secondary.cards == data.secondary_cards,
        r.secondary.offset == data.primary_cards,
        r.name@ == data.name@,
{
    DecksTogether {
        primary: Deck { cards: data.primary_cards, offset: 0 },
        secondary: Deck { cards: data.secondary_cards, offset: data.primary_cards },
        name: data.name.clone(),
    }
}

/// The grid multipliers of tile `index` in a deck grid of `columns`
/// columns, as a walk over the tiles accumulates them: the column
/// multiplier resets on every wrap before the next tile is placed, so
/// it runs from 1 to `columns`, and the row multiplier starts at 2.
pub fn grid_position(index: usize, columns: usize) -> (r: (usize, usize))
    requires
        columns >= 1,
        index <= usize::MAX - 2,
    ensures
        r.0 == index % columns + 1,
        r.1 == index / columns + 2,
{
    proof {
        vstd::arithmetic::div_mod::lemma_mod_decreases(index as nat, columns as nat);
        vstd::arithmetic::div_mod::lemma_div_nonincreasing(index as int, columns as int);
        vstd::arithmetic::div_mod::lemma_div_pos_is_pos(index as int, columns as int);
        assert(index % columns <= index);
        assert(index / columns <= index);
    }
    (index % columns + 1, index / columns + 2)
}

/// One wrap step of the grid walk: how `i % c` and `i / c` advance.
proof fn lemma_grid_step(i: int, c: int)
    requires
        c >= 1,
        i >= 0,
    ensures
        i % c == 0 ==> i / c == if i == 0 { 0int } else { (i - 1) / c + 1 } && i % c + 1 == 1
            || i == 0,
        i % c == 0 && i > 0 ==> i / c == (i - 1) / c + 1,
        i % c == 0 ==> i % c + 1 == 1,
        i % c != 0 ==> i / c == (i - 1) / c && i % c == (i - 1) % c + 1,
{
    vstd::arithmetic::div_mod::lemma_fundamental_div_mod(i, c);
    vstd::arithmetic::div_mod::lemma_fundamental_div_mod(i - 1, c);
    if i % c == 0 && i > 0 {
        assert(i / c == (i - 1) / c + 1) by (nonlinear_arith)
            requires
                c >= 1,
                i > 0,
                i % c == 0,
                i == c * (i / c) + i % c,
                i - 1 == c * ((i - 1) / c) + (i - 1) % c,
                0 <= i % c < c,
                0 <= (i - 1) % c < c,
        ;
    }
    if i % c != 0 {
        assert(i / c == (i - 1) / c && i % c == (i - 1) % c + 1) by (nonlinear_arith)
            requires
                c >= 1,
                i > 0,
                i % c != 0,
                i == c * (i / c) + i % c,
                i - 1 == c * ((i - 1) / c) + (i - 1) % c,
                0 <= i % c < c,
                0 <= (i - 1) % c < c,
        ;
    }
}

/// One slot of the game board: the grid cells of a deck's primary and
/// secondary piles, in card-spacing units relative to the board origin.
#[derive(Clone, Copy, Debug, PartialEq, Eq, Structural)]
pub struct CardSlot {
    pub primary_col: i64,
    pub primary_row: i64,
    pub secondary_col: i64,
    pub secondary_row: i64,
}

/// Where deck `i` of the run lands on the board.
///
/// Vertical boards lay every deck in one long row, the secondary pile one
/// cell below its primary. Horizontal boards advance two cells per deck,
/// wrap every second deck onto a fresh row below (the column resets
/// before the next slot is computed), and put the secondary pile one
/// cell right of its primary.
pub open spec fn spec_card_slot(i: int, vertical: bool) -> CardSlot {
    if vertical {
        CardSlot {
            primary_col: i as i64,
            primary_row: -1 as i64,
            secondary_col: i as i64,
            secondary_row: -2 as i64,
        }
    } else {
        CardSlot {
            primary_col: (2 * (i % 2)) as i64,
            primary_row: (-1 - i / 2) as i64,
            secondary_col: (2 * (i % 2) + 1) as i64,
            secondary_row: (-1 - i / 2) as i64,
        }
    }
}

/// The board slots of a run of `deck_count` decks, one per deck in run
/// order, as [`spec_card_slot`] states.
pub fn layout_positions(deck_count: usize, vertical: bool) -> (r: Vec<CardSlot>)
    requires
        deck_count <= i64::MAX,
    ensures
        r@.len() == deck_count,
        forall|i: int| 0 <= i < deck_count ==> r@[i] == spec_card_slot(i, vertical),
{
    let mut r: Vec<CardSlot> = Vec::new();
    let mut mulx: i64 = 0;
    let mut muly: i64 = -1;
    let mut deck: usize = 0;
    while deck < deck_count
        invariant
            deck_count <= i64::MAX,
            deck <= deck_count,
            r@.len() == deck,
            forall|i: int| 0 <= i < deck ==> r@[i] == spec_card_slot(i, vertical),
            vertical ==> mulx == deck && muly == -1,
            !vertical && deck == 0 ==> mulx == 0 && muly == -1,
            !vertical && deck > 0 ==> mulx == 2 * ((deck - 1) as int % 2) + 2 && muly == -1 - (
            deck - 1) as int / 2,
        decreases deck_count - deck,
    {
        proof {
            if deck > 0 {
                lemma_grid_step(deck as int, 2);
                vstd::arithmetic::div_mod::lemma_div_nonincreasing((deck - 1) as int, 2);
                vstd::arithmetic::div_mod::lemma_div_pos_is_pos((deck - 1) as int, 2);
            }
            vstd::arithmetic::div_mod::lemma_div_nonincreasing(deck as int, 2);
            vstd::arithmetic::div_mod::lemma_div_pos_is_pos(deck as int, 2);
            assert(0 <= (deck as int) % 2 < 2) by (nonlinear_arith);
        }
        if !vertical && deck != 0 && deck % 2 == 0 {
            mulx = 0;
            muly = muly - 1;
        }
        proof {
            if !vertical {
                assert(mulx == 2 * ((deck as int) % 2) && muly == -1 - (deck as int) / 2);
            }
        }
        let slot = if !vertical {
            CardSlot {
                primary_col: mulx,
                primary_row: muly,
                secondary_col: mulx + 1,
                secondary_row: muly,
            }
        } else {
            CardSlot {
                primary_col: mulx,
                primary_row: muly,
                secondary_col: mulx,
                secondary_row: muly - 1,
            }
        };
        r.push(slot);
        if !vertical {
            mulx = mulx + 2;
        } else {
            mulx = mulx + 1;
        }
        deck += 1;
    }
    r
}

/// The board pan one wheel step applies, in layout units: vertical
/// boards pan sideways with the wheel, horizontal boards pan up and down
/// against it. Both signed behaviors are deliberate, one per
/// orientation.
pub fn scroll_gamemap_step(vertical: bool, amount: i64) -> (r: (i64, i64))
    requires
        -(i64::MAX / 70) <= amount <= i64::MAX / 70,
    ensures
        !vertical ==> r == (0i64, (-70 * amount) as i64),
        vertical ==> r == ((70 * amount) as i64, 0i64),
{
    proof {
        assert(-(i64::MAX as int) <= 70 * amount <= i64::MAX) by (nonlinear_arith)
            requires
                -(i64::MAX as int / 70) <= amount <= i64::MAX as int / 70,
        ;
    }
    if !vertical {
        (0, -70 * amount)
    } else {
        (70 * amount, 0)
    }
}

/// The pan one wheel step applies to the scrollable menus: always
/// straight down the grid, against the wheel.
pub fn scroll_backmap_step(amount: i64) -> (r: i64)
    requires
        -(i64::MAX / 70) <= amount <= i64::MAX / 70,
    ensures
        r == -70 * amount,
{
    proof {
        assert(-(i64::MAX as int) <= 70 * amount <= i64::MAX) by (nonlinear_arith)
            requires
                -(i64::MAX as int / 70) <= amount <= i64::MAX as int / 70,
        ;
    }
    -70 * amount
}

} // verus!
