//! Pagination over the deck grids: a cursor into fixed-size pages of
//! either the full catalog (deck selection) or the enabled subset
//! (pre-game). The cursor can never go negative, and moving right is
//! rejected exactly when the next page would start past the items.

use vstd::prelude::*;
use crate::decks::{EnabledJson, GameGlobals};
use crate::state::GameState;

verus! {

/// Decks shown per page of the grid.
pub const PAGE_SIZE: usize = 8;

/// The current page of the deck grid.
pub struct CurrPage {
    pub index: usize,
}

impl CurrPage {
    /// Start on the first page.
    pub fn new() -> (r: Self)
        ensures
            r.index == 0,
    {
        CurrPage { index: 0 }
    }

    /// Back to the first page; the pre-game screen does this on entry.
    pub fn reset(&mut self)
        ensures
            final(self).index == 0,
    {
        self.index = 0;
    }

    /// Move one page left; rejected exactly at the first page.
    pub fn try_left(&mut self) -> (moved: bool)
        ensures
            moved == (old(self).index > 0),
            final(self).index == if old(self).index > 0 {
                old(self).index - 1
            } else {
                old(self).index as int
            },
    {
        if self.index > 0 {
            self.index = self.index - 1;
            true
        } else {
            false
        }
    }

    /// Move one page right; rejected exactly when the move would pass the
    /// last item, that is when `(index + 1) * page_size > item_count`.
    pub fn try_right(&mut self, item_count: usize, page_size: usize) -> (moved: bool)
        requires
            page_size >= 1,
        ensures
            moved == ((old(self).index + 1) * page_size <= item_count),
            final(self).index == if (old(self).index + 1) * page_size <= item_count {
                old(self).index + 1
            } else {
                old(self).index as int
            },
    {
        let next = match self.index.checked_add(1) {
            Some(n) => n,
            None => {
                proof {
                    let ghost ix = old(self).index as int;
                    assert(ix == usize::MAX);
                    assert((ix + 1) * page_size > item_count) by (nonlinear_arith)
                        requires
                            page_size >= 1,
                            ix == usize::MAX,
                            item_count <= usize::MAX,
                    ;
                }
                return false;
            },
        };
        match next.checked_mul(page_size) {
            Some(p) => {
                if p > item_count {
                    false
                } else {
                    self.index = next;
                    true
                }
            },
            None => false,
        }
    }
}

/// How many pages `item_count` items fill, the last one possibly partial.
pub fn num_pages(item_count: usize, page_size: usize) -> (r: usize)
    requires
        page_size >= 1,
    ensures
        r == (item_count + page_size - 1) as int / page_size as int,
{
    if item_count == 0 {
        proof {
            vstd::arithmetic::div_mod::lemma_basic_div(
                page_size - 1,
                page_size as int,
            );
        }
        0
    } else {
        let r = (item_count - 1) / page_size + 1;
        proof {
            vstd::arithmetic::div_mod::lemma_div_plus_one(
                item_count - 1,
                page_size as int,
            );
        }
        r
    }
}

/// The window of `items` that page `index` shows, in order: up to
/// `page_size` entries starting at `index * page_size`.
pub fn page_items(items: &Vec<usize>, index: usize, page_size: usize) -> (r: Vec<usize>)
    ensures
        r@ == items@.subrange(
            page_start(items@, index as nat, page_size as nat) as int,
            page_end(items@, index as nat, page_size as nat) as int,
        ),
{
    let lo = match index.checked_mul(page_size) {
        Some(p) => {
            if p > items.len() {
                items.len()
            } else {
                p
            }
        },
        None => items.len(),
    };
    let hi = match lo.checked_add(page_size) {
        Some(h) => {
            if h > items.len() {
                items.len()
            } else {
                h
            }
        },
        None => items.len(),
    };
    let mut r: Vec<usize> = Vec::new();
    let mut i: usize = lo;
    while i < hi
        invariant
            lo <= i <= hi <= items@.len(),
            r@ == items@.subrange(lo as int, i as int),
        decreases hi - i,
    {
        r.push(items[i]);
        proof {
            assert(r@ =~= items@.subrange(lo as int, i + 1 as int));
        }
        i += 1;
    }
    r
}

/// Where page `index` starts in `items`, clipped to the item count.
pub open spec fn page_start(items: Seq<usize>, index: nat, page_size: nat) -> nat {
    if index * page_size > items.len() {
        items.len()
    } else {
        index * page_size
    }
}

/// Where page `index` ends in `items`, clipped to the item count.
pub open spec fn page_end(items: Seq<usize>, index: nat, page_size: nat) -> nat {
    if page_start(items, index, page_size) + page_size > items.len() {
        items.len()
    } else {
        page_start(items, index, page_size) + page_size
    }
}

/// How many items the deck grid of the active screen pages over: the
/// enabled subset in `PreGame`, the whole catalog elsewhere.
pub fn page_item_count(
    state: &GameState,
    enabled_json: &EnabledJson,
    globals: &GameGlobals,
) -> (r: usize)
    ensures
        r == if *state == GameState::PreGame {
            enabled_json.enabled@.len() as int
        } else {
            globals.total_decks as int
        },
{
    if *state == GameState::PreGame {
        enabled_json.enabled.len()
    } else {
        globals.total_decks
    }
}

} // verus!
