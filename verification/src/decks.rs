//! Deck-selection model: which decks exist, which are enabled for future
//! runs, and which are picked for the active run.
//!
//! `EnabledJson` keeps two disjoint, duplicate-free lists of deck indices,
//! `enabled` and `disabled`; an index in neither list is "undetermined"
//! and is resolved toward enabled by [`EnabledJson::reconcile_new_decks`].
//! `CurrentRunJson` is the active run: the picked deck indices, the score
//! and the in-hand card indices.

use vstd::prelude::*;

verus! {

/// True if `v` holds `x`; the executable counterpart of `Seq::contains`.
pub(crate) fn vec_contains_usize(v: &Vec<usize>, x: usize) -> (r: bool)
    ensures
        r == v@.contains(x),
{
    let mut i: usize = 0;
    while i < v.len()
        invariant
            i <= v@.len(),
            forall|j: int| 0 <= j < i ==> v@[j] != x,
        decreases v@.len() - i,
    {
        if v[i] == x {
            return true;
        }
        i += 1;
    }
    false
}

/// Position of the first occurrence of `x` in `v`, if any.
fn vec_find_usize(v: &Vec<usize>, x: usize) -> (r: Option<usize>)
    ensures
        match r {
            Some(i) => i < v@.len() && v@[i as int] == x && forall|j: int| 0 <= j < i ==> v@[j] != x,
            None => !v@.contains(x),
        },
{
    let mut i: usize = 0;
    while i < v.len()
        invariant
            i <= v@.len(),
            forall|j: int| 0 <= j < i ==> v@[j] != x,
        decreases v@.len() - i,
    {
        if v[i] == x {
            return Some(i);
        }
        i += 1;
    }
    None
}

/// The standing player preference: deck indices enabled for future runs and
/// deck indices explicitly disabled.
pub struct EnabledJson {
    pub disabled: Vec<usize>,
    pub enabled: Vec<usize>,
}

/// What `enable` does to the enabled list.
pub open spec fn enable_step_enabled(en: Seq<usize>, deck: usize) -> Seq<usize> {
    if en.contains(deck) {
        en
    } else {
        en.push(deck)
    }
}

/// What `enable` does to the disabled list (and `disable` to the enabled one).
pub open spec fn remove_step(s: Seq<usize>, deck: usize) -> Seq<usize> {
    s.remove_value(deck)
}

impl EnabledJson {
    /// Both lists are duplicate-free and no index is in both at once.
    pub open spec fn wf(self) -> bool {
        &&& self.enabled@.no_duplicates()
        &&& self.disabled@.no_duplicates()
        &&& forall|d: usize| #[trigger] self.enabled@.contains(d) ==> !self.disabled@.contains(d)
    }

    pub open spec fn check_enabled_spec(self, deck: usize) -> bool {
        self.enabled@.contains(deck)
    }

    pub open spec fn check_disabled_spec(self, deck: usize) -> bool {
        self.disabled@.contains(deck)
    }

    /// An empty preference: every deck is still undetermined.
    pub fn new() -> (r: Self)
        ensures
            r.enabled@ == Seq::<usize>::empty(),
            r.disabled@ == Seq::<usize>::empty(),
            r.wf(),
    {
        EnabledJson { disabled: Vec::new(), enabled: Vec::new() }
    }

    pub fn check_enabled(&self, num: &usize) -> (r: bool)
        ensures
            r == self.check_enabled_spec(*num),
    {
        vec_contains_usize(&self.enabled, *num)
    }

    pub fn check_disabled(&self, num: &usize) -> (r: bool)
        ensures
            r == self.check_disabled_spec(*num),
    {
        vec_contains_usize(&self.disabled, *num)
    }

    /// Mark `deck` enabled: add it to the enabled list unless already there,
    /// and drop it from the disabled list. Idempotent; never fails.
    pub fn enable(&mut self, deck: usize)
        requires
            old(self).wf(),
        ensures
            final(self).wf(),
            final(self).check_enabled_spec(deck),
            !final(self).check_disabled_spec(deck),
            final(self).enabled@ == enable_step_enabled(old(self).enabled@, deck),
            final(self).disabled@ == remove_step(old(self).disabled@, deck),
    {
        if !self.check_enabled(&deck) {
            self.enabled.push(deck);
        }
        match vec_find_usize(&self.disabled, deck) {
            Some(i) => {
                proof {
                    self.disabled@.index_of_first_ensures(deck);
                }
                self.disabled.remove(i);
            },
            None => {
                proof {
                    self.disabled@.index_of_first_ensures(deck);
                }
            },
        }
        proof {
            lemma_enable_step_wf(old(self).enabled@, old(self).disabled@, deck);
        }
    }

    /// Mark `deck` disabled: symmetric to [`EnabledJson::enable`].
    pub fn disable(&mut self, deck: usize)
        requires
            old(self).wf(),
        ensures
            final(self).wf(),
            final(self).check_disabled_spec(deck),
            !final(self).check_enabled_spec(deck),
            final(self).disabled@ == enable_step_enabled(old(self).disabled@, deck),
            final(self).enabled@ == remove_step(old(self).enabled@, deck),
    {
        if !self.check_disabled(&deck) {
            self.disabled.push(deck);
        }
        match vec_find_usize(&self.enabled, deck) {
            Some(i) => {
                proof {
                    self.enabled@.index_of_first_ensures(deck);
                }
                self.enabled.remove(i);
            },
            None => {
                proof {
                    self.enabled@.index_of_first_ensures(deck);
                }
            },
        }
        proof {
            lemma_enable_step_wf(old(self).disabled@, old(self).enabled@, deck);
        }
    }
}

/// Membership in a concatenation is membership in either part.
proof fn lemma_seq_add_contains(a: Seq<usize>, b: Seq<usize>, x: usize)
    ensures
        (a + b).contains(x) <==> a.contains(x) || b.contains(x),
{
    if a.contains(x) {
        let i = choose|i: int| 0 <= i < a.len() && a[i] == x;
        assert((a + b)[i] == x);
    }
    if b.contains(x) {
        let i = choose|i: int| 0 <= i < b.len() && b[i] == x;
        assert((a + b)[a.len() + i] == x);
    }
    if (a + b).contains(x) {
        let i = choose|i: int| 0 <= i < (a + b).len() && (a + b)[i] == x;
        if i < a.len() {
            assert(a[i] == x);
        } else {
            assert(b[i - a.len()] == x);
        }
    }
}

/// After adding `deck` to `a` and removing it from `b`, the two lists are
/// again duplicate-free and disjoint.
#[verifier::rlimit(60)]
proof fn lemma_enable_step_wf(a: Seq<usize>, b: Seq<usize>, deck: usize)
    requires
        a.no_duplicates(),
        b.no_duplicates(),
        forall|d: usize| #[trigger] a.contains(d) ==> !b.contains(d),
    ensures
        enable_step_enabled(a, deck).no_duplicates(),
        remove_step(b, deck).no_duplicates(),
        enable_step_enabled(a, deck).contains(deck),
        !remove_step(b, deck).contains(deck),
        forall|d: usize|
            #[trigger] enable_step_enabled(a, deck).contains(d) ==> !remove_step(b, deck).contains(d),
        forall|d: usize| d != deck ==> (#[trigger] enable_step_enabled(a, deck).contains(d) == a.contains(d)),
        forall|d: usize| d != deck ==> (#[trigger] remove_step(b, deck).contains(d) == b.contains(d)),
{
    let a2 = enable_step_enabled(a, deck);
    let b2 = remove_step(b, deck);
    b.index_of_first_ensures(deck);
    let kopt = b.index_of_first(deck);
    if !a.contains(deck) {
        assert forall|d: usize| #[trigger] a2.contains(d) implies d == deck || a.contains(d) by {
            let i = choose|i: int| 0 <= i < a2.len() && a2[i] == d;
            if i < a.len() {
                assert(a[i] == d);
            }
        }
        assert(a2[a.len() as int] == deck);
    }
    assert forall|d: usize| d != deck && a.contains(d) implies #[trigger] a2.contains(d) by {
        let i = choose|i: int| 0 <= i < a.len() && a[i] == d;
        assert(a2[i] == d);
    }
    assert forall|d: usize| #[trigger] b2.contains(d) implies b.contains(d) by {
        let i = choose|i: int| 0 <= i < b2.len() && b2[i] == d;
        if kopt is Some {
            let k: int = kopt->0;
            if i < k {
                assert(b[i] == d);
            } else {
                assert(b[i + 1] == d);
            }
        }
    }
    assert(!b2.contains(deck)) by {
        if kopt is Some {
            let k: int = kopt->0;
            if exists|i: int| 0 <= i < b2.len() && b2[i] == deck {
                let i = choose|i: int| 0 <= i < b2.len() && b2[i] == deck;
                if i < k {
                    assert(b[i] == deck);
                } else {
                    assert(b[i + 1] == deck);
                }
            }
        }
    }
    assert forall|d: usize| d != deck && #[trigger] b.contains(d) implies b2.contains(d) by {
        let i = choose|i: int| 0 <= i < b.len() && b[i] == d;
        if kopt is Some {
            let k: int = kopt->0;
            if i < k {
                assert(b2[i] == d);
            } else {
                assert(b2[i - 1] == d);
            }
        }
    }
    if kopt is Some {
        let k: int = kopt->0;
        assert(b2.no_duplicates()) by {
            assert forall|i: int, j: int| 0 <= i < b2.len() && 0 <= j < b2.len() && i != j
                implies b2[i] != b2[j] by {
                let bi: int = if i < k { i } else { i + 1 };
                let bj: int = if j < k { j } else { j + 1 };
                assert(b2[i] == b[bi]);
                assert(b2[j] == b[bj]);
            }
        }
    }
    if !a.contains(deck) {
        assert(a2.no_duplicates()) by {
            assert forall|i: int, j: int| 0 <= i < a2.len() && 0 <= j < a2.len() && i != j
                implies a2[i] != a2[j] by {
                if i < a.len() && j < a.len() {
                    assert(a[i] != a[j]);
                } else if i < a.len() {
                    assert(a[i] == a2[i] && a2[j] == deck);
                } else if j < a.len() {
                    assert(a[j] == a2[j] && a2[i] == deck);
                }
            }
        }
    }
}

/// The catalog indices below `n` that are in neither list, in increasing
/// order: what [`EnabledJson::reconcile_new_decks`] appends to `enabled`.
pub open spec fn missing_from(en: Seq<usize>, dis: Seq<usize>, n: nat) -> Seq<usize>
    decreases n,
{
    if n == 0 {
        Seq::empty()
    } else {
        let k = (n - 1) as usize;
        let prev = missing_from(en, dis, (n - 1) as nat);
        if en.contains(k) || dis.contains(k) {
            prev
        } else {
            prev.push(k)
        }
    }
}

/// `missing_from` holds exactly the undetermined indices below `n`, each once.
proof fn lemma_missing_from_props(en: Seq<usize>, dis: Seq<usize>, n: nat)
    requires
        n <= usize::MAX,
    ensures
        forall|d: usize|
            #[trigger] missing_from(en, dis, n).contains(d)
                <==> (d < n && !en.contains(d) && !dis.contains(d)),
        missing_from(en, dis, n).no_duplicates(),
    decreases n,
{
    if n > 0 {
        let k = (n - 1) as usize;
        let prev = missing_from(en, dis, (n - 1) as nat);
        let cur = missing_from(en, dis, n);
        lemma_missing_from_props(en, dis, (n - 1) as nat);
        if !(en.contains(k) || dis.contains(k)) {
            assert forall|d: usize| #[trigger] cur.contains(d)
                implies (d < n && !en.contains(d) && !dis.contains(d)) by {
                let i = choose|i: int| 0 <= i < cur.len() && cur[i] == d;
                if i < prev.len() {
                    assert(prev[i] == d);
                    assert(prev.contains(d));
                }
            }
            assert forall|d: usize| d < n && !en.contains(d) && !dis.contains(d)
                implies #[trigger] cur.contains(d) by {
                if d < n - 1 {
                    assert(prev.contains(d));
                    let i = choose|i: int| 0 <= i < prev.len() && prev[i] == d;
                    assert(cur[i] == d);
                } else {
                    assert(cur[prev.len() as int] == d);
                }
            }
            assert(cur.no_duplicates()) by {
                assert forall|i: int, j: int| 0 <= i < cur.len() && 0 <= j < cur.len() && i != j
                    implies cur[i] != cur[j] by {
                    if i < prev.len() && j < prev.len() {
                    } else if i < prev.len() {
                        assert(prev.contains(prev[i]));
                    } else if j < prev.len() {
                        assert(prev.contains(prev[j]));
                    }
                }
            }
        } else {
            assert forall|d: usize| d < n && !en.contains(d) && !dis.contains(d)
                implies #[trigger] cur.contains(d) by {
                assert(d < n - 1);
            }
        }
    }
}

impl EnabledJson {
    /// Default every catalog index that is in neither list to enabled, so
    /// that decks added to the catalog need no migration step. Leaves the
    /// disabled list untouched and appends the undetermined indices, in
    /// increasing order, to the enabled list.
    pub fn reconcile_new_decks(&mut self, catalog_size: usize)
        requires
            old(self).wf(),
        ensures
            final(self).wf(),
            final(self).disabled@ == old(self).disabled@,
            final(self).enabled@ == old(self).enabled@
                + missing_from(old(self).enabled@, old(self).disabled@, catalog_size as nat),
            forall|d: usize|
                d < catalog_size
                    ==> #[trigger] final(self).check_enabled_spec(d)
                        || final(self).check_disabled_spec(d),
    {
        let ghost en0 = old(self).enabled@;
        let ghost dis0 = old(self).disabled@;
        let mut i: usize = 0;
        while i < catalog_size
            invariant
                i <= catalog_size,
                self.wf(),
                self.disabled@ == dis0,
                self.enabled@ == en0 + missing_from(en0, dis0, i as nat),
            decreases catalog_size - i,
        {
            proof {
                lemma_missing_from_props(en0, dis0, i as nat);
                lemma_seq_add_contains(en0, missing_from(en0, dis0, i as nat), i);
            }
            if !self.check_enabled(&i) && !self.check_disabled(&i) {
                let ghost pre = self.enabled@;
                self.enable(i);
                proof {
                    pre.index_of_first_ensures(i);
                    dis0.index_of_first_ensures(i);
                    assert(self.enabled@ =~= en0 + missing_from(en0, dis0, (i + 1) as nat));
                }
            } else {
                proof {
                    assert(missing_from(en0, dis0, (i + 1) as nat)
                        == missing_from(en0, dis0, i as nat));
                }
            }
            i += 1;
        }
        proof {
            lemma_missing_from_props(en0, dis0, catalog_size as nat);
            assert forall|d: usize| d < catalog_size
                implies #[trigger] self.check_enabled_spec(d) || self.check_disabled_spec(d) by {
                lemma_seq_add_contains(en0, missing_from(en0, dis0, catalog_size as nat), d);
            }
        }
    }
}

/// Law: reconciling the same catalog size twice leaves exactly the state
/// that one reconciliation produces; the second pass appends nothing.
pub proof fn lemma_reconcile_new_decks_idempotent(en: Seq<usize>, dis: Seq<usize>, n: nat)
    requires
        n <= usize::MAX,
    ensures
        ({
            let once = en + missing_from(en, dis, n);
            once + missing_from(once, dis, n) == once
        }),
{
    let once = en + missing_from(en, dis, n);
    lemma_missing_from_props(en, dis, n);
    assert forall|m: nat| m <= n implies #[trigger] missing_from(once, dis, m) == Seq::<usize>::empty() by {
        lemma_missing_from_empty_below(en, dis, n, m);
    }
    assert(once + Seq::<usize>::empty() =~= once);
}

/// Below `n`, a reconciled state has no undetermined index left.
proof fn lemma_missing_from_empty_below(en: Seq<usize>, dis: Seq<usize>, n: nat, m: nat)
    requires
        n <= usize::MAX,
        m <= n,
    ensures
        missing_from(en + missing_from(en, dis, n), dis, m) == Seq::<usize>::empty(),
    decreases m,
{
    let once = en + missing_from(en, dis, n);
    if m > 0 {
        let k = (m - 1) as usize;
        lemma_missing_from_empty_below(en, dis, n, (m - 1) as nat);
        lemma_missing_from_props(en, dis, n);
        lemma_seq_add_contains(en, missing_from(en, dis, n), k);
        assert(once.contains(k) || dis.contains(k));
    }
}

/// Law: `enable`, then `disable`, then `enable` of one index converges to
/// the state a single `enable` gives: the disabled list is identical and
/// the enabled list holds exactly the same indices (only its order may
/// differ, when the index was already enabled at the start).
pub proof fn lemma_enable_disable_enable_converges(en: Seq<usize>, dis: Seq<usize>, deck: usize)
    requires
        en.no_duplicates(),
        dis.no_duplicates(),
        forall|d: usize| #[trigger] en.contains(d) ==> !dis.contains(d),
    ensures
        ({
            let en1 = enable_step_enabled(en, deck);
            let dis1 = remove_step(dis, deck);
            let dis2 = enable_step_enabled(dis1, deck);
            let en2 = remove_step(en1, deck);
            let en3 = enable_step_enabled(en2, deck);
            let dis3 = remove_step(dis2, deck);
            &&& dis3 == dis1
            &&& forall|d: usize| #[trigger] en3.contains(d) <==> en1.contains(d)
            &&& en3.no_duplicates()
        }),
{
    let en1 = enable_step_enabled(en, deck);
    let dis1 = remove_step(dis, deck);
    let dis2 = enable_step_enabled(dis1, deck);
    let en2 = remove_step(en1, deck);
    let en3 = enable_step_enabled(en2, deck);
    let dis3 = remove_step(dis2, deck);
    lemma_enable_step_wf(en, dis, deck);
    lemma_enable_step_wf(dis1, en1, deck);
    lemma_enable_step_wf(en2, dis2, deck);
    // The second `enable` pushes `deck` back into `dis1 + [deck]` and must
    // strip exactly that copy: `dis1` itself holds no `deck`.
    assert(dis2 == dis1.push(deck));
    assert(dis3 == dis1) by {
        dis2.index_of_first_ensures(deck);
        let kopt = dis2.index_of_first(deck);
        assert(dis2[dis1.len() as int] == deck);
        assert(kopt is Some);
        let k: int = kopt->0;
        if k < dis1.len() {
            assert(dis1[k] == deck);
            assert(dis1.contains(deck));
        }
        assert(k == dis1.len());
        assert(dis2.remove(k) =~= dis1);
    }
    assert forall|d: usize| #[trigger] en3.contains(d) <==> en1.contains(d) by {
        if d != deck {
            assert(en3.contains(d) == en2.contains(d));
            assert(en2.contains(d) == en1.contains(d));
        } else {
            assert(en3.contains(deck));
            assert(en1.contains(deck));
        }
    }
}

/// The active run: deck indices chosen for this play-through, the running
/// score, and the in-hand card indices.
pub struct CurrentRunJson {
    pub decks: Vec<usize>,
    pub score: usize,
    pub hand: Vec<usize>,
}

impl CurrentRunJson {
    /// A fresh run: nothing picked, score zero, empty hand.
    pub fn new() -> (r: Self)
        ensures
            r.decks@ == Seq::<usize>::empty(),
            r.score == 0,
            r.hand@ == Seq::<usize>::empty(),
    {
        CurrentRunJson { decks: Vec::new(), score: 0, hand: Vec::new() }
    }

    pub open spec fn check_deck_spec(self, deck: usize) -> bool {
        self.decks@.contains(deck)
    }

    pub open spec fn check_hand_spec(self, card: usize) -> bool {
        self.hand@.contains(card)
    }

    /// Is `deck` picked for this run?
    pub fn check_deck(&self, deck: &usize) -> (r: bool)
        ensures
            r == self.check_deck_spec(*deck),
    {
        vec_contains_usize(&self.decks, *deck)
    }

    /// Is `card` in the hand?
    pub fn check_hand(&self, card: &usize) -> (r: bool)
        ensures
            r == self.check_hand_spec(*card),
    {
        vec_contains_usize(&self.hand, *card)
    }

    /// Pick `deck` for the run. Eligibility (the deck being enabled) is the
    /// caller's to ensure; the model does not re-validate it.
    pub fn enable_deck(&mut self, deck: usize)
        ensures
            final(self).decks@ == old(self).decks@.push(deck),
            final(self).score == old(self).score,
            final(self).hand@ == old(self).hand@,
    {
        self.decks.push(deck);
    }

    /// Drop the first occurrence of `deck` from the run; deliberately a
    /// no-op when it was never picked.
    pub fn disable_deck(&mut self, deck: usize)
        ensures
            final(self).decks@ == old(self).decks@.remove_value(deck),
            final(self).score == old(self).score,
            final(self).hand@ == old(self).hand@,
    {
        proof {
            self.decks@.index_of_first_ensures(deck);
        }
        match vec_find_usize(&self.decks, deck) {
            Some(i) => {
                self.decks.remove(i);
            },
            None => {},
        }
    }

    /// Add `delta` to the running score.
    pub fn update_score(&mut self, delta: usize)
        requires
            old(self).score + delta <= usize::MAX,
        ensures
            final(self).score == old(self).score + delta,
            final(self).decks@ == old(self).decks@,
            final(self).hand@ == old(self).hand@,
    {
        self.score = self.score + delta;
    }
}

/// One catalog entry: the card counts of the two piles and the display
/// name and image file references, held as raw bytes exactly as they
/// stood in the catalog document. Never mutated after loading.
#[derive(Clone, Debug)]
pub struct DeckData {
    pub primary_cards: usize,
    pub name: Vec<u8>,
    pub file: Vec<u8>,
    pub back_file: Vec<u8>,
    pub secondary_cards: usize,
}

impl View for DeckData {
    type V = (usize, Seq<u8>, Seq<u8>, Seq<u8>, usize);

    /// A catalog entry as the plain tuple of its fields.
    open spec fn view(&self) -> Self::V {
        (self.primary_cards, self.name@, self.file@, self.back_file@, self.secondary_cards)
    }
}

/// The full deck catalog, identified by position in the list.
#[derive(Clone, Debug)]
pub struct DeckDataWrapper {
    pub decks: Vec<DeckData>,
}

impl DeckDataWrapper {
    /// An empty catalog, to be filled from the catalog document.
    pub fn new() -> (r: Self)
        ensures
            r.decks@ == Seq::<DeckData>::empty(),
    {
        DeckDataWrapper { decks: Vec::new() }
    }

    /// The back-image file reference of every entry, in catalog order:
    /// what the asset loader needs for the deck grids.
    pub fn back_files(&self) -> (r: Vec<Vec<u8>>)
        ensures
            r@.len() == self.decks@.len(),
            forall|i: int| 0 <= i < r@.len() ==> r@[i]@ == self.decks@[i].back_file@,
    {
        let mut r: Vec<Vec<u8>> = Vec::new();
        let mut i: usize = 0;
        while i < self.decks.len()
            invariant
                i <= self.decks@.len(),
                r@.len() == i,
                forall|j: int| 0 <= j < i ==> r@[j]@ == self.decks@[j].back_file@,
            decreases self.decks@.len() - i,
        {
            r.push(self.decks[i].back_file.clone());
            i += 1;
        }
        r
    }
}

/// What sanitizing leaves of a pick list: the first occurrence of each
/// currently enabled deck, in order; everything else goes.
pub open spec fn spec_sanitize(decks: Seq<usize>, enabled_json: EnabledJson) -> Seq<usize>
    decreases decks.len(),
{
    if decks.len() == 0 {
        Seq::empty()
    } else {
        let rest = spec_sanitize(decks.drop_last(), enabled_json);
        if enabled_json.check_enabled_spec(decks.last()) && !rest.contains(decks.last()) {
            rest.push(decks.last())
        } else {
            rest
        }
    }
}

/// A sanitized pick list is duplicate-free and holds only enabled decks.
proof fn lemma_sanitize_wf(decks: Seq<usize>, enabled_json: EnabledJson)
    ensures
        spec_sanitize(decks, enabled_json).no_duplicates(),
        forall|d: usize|
            #[trigger] spec_sanitize(decks, enabled_json).contains(d)
                ==> enabled_json.check_enabled_spec(d) && decks.contains(d),
        spec_sanitize(decks, enabled_json).len() <= decks.len(),
    decreases decks.len(),
{
    if decks.len() > 0 {
        lemma_sanitize_wf(decks.drop_last(), enabled_json);
        let rest = spec_sanitize(decks.drop_last(), enabled_json);
        let cur = spec_sanitize(decks, enabled_json);
        assert forall|d: usize| #[trigger] cur.contains(d)
            implies enabled_json.check_enabled_spec(d) && decks.contains(d) by {
            let i = choose|i: int| 0 <= i < cur.len() && cur[i] == d;
            if i < rest.len() {
                assert(rest[i] == d);
                assert(rest.contains(d));
                let j = choose|j: int| 0 <= j < decks.drop_last().len() && decks.drop_last()[j]
                    == d;
                assert(decks[j] == d);
            } else {
                assert(cur[i] == decks.last());
            }
        }
        if enabled_json.check_enabled_spec(decks.last()) && !rest.contains(decks.last()) {
            assert(cur.no_duplicates()) by {
                assert forall|i: int, j: int| 0 <= i < cur.len() && 0 <= j < cur.len() && i != j
                    implies cur[i] != cur[j] by {
                    if i < rest.len() && j < rest.len() {
                    } else if i < rest.len() {
                        assert(rest.contains(rest[i]));
                    } else if j < rest.len() {
                        assert(rest.contains(rest[j]));
                    }
                }
            }
        }
    }
}

impl CurrentRunJson {
    /// Drop every pick that is not currently enabled and every repeated
    /// pick, keeping first occurrences in order: a loaded save is made to
    /// satisfy the model's invariant before the run goes on.
    pub fn sanitize(&mut self, enabled_json: &EnabledJson)
        ensures
            final(self).decks@ == spec_sanitize(old(self).decks@, *enabled_json),
            final(self).score == old(self).score,
            final(self).hand@ == old(self).hand@,
            run_wf(*final(self), *enabled_json),
            final(self).decks@.len() <= old(self).decks@.len(),
    {
        let mut kept: Vec<usize> = Vec::new();
        let mut i: usize = 0;
        while i < self.decks.len()
            invariant
                i <= self.decks@.len(),
                kept@ == spec_sanitize(self.decks@.take(i as int), *enabled_json),
                kept@.len() <= i,
            decreases self.decks@.len() - i,
        {
            let d = self.decks[i];
            proof {
                assert(self.decks@.take(i + 1).drop_last() =~= self.decks@.take(i as int));
                assert(self.decks@.take(i + 1).last() == self.decks@[i as int]);
            }
            if enabled_json.check_enabled(&d) && !vec_contains_usize(&kept, d) {
                kept.push(d);
            }
            i += 1;
        }
        proof {
            assert(self.decks@.take(self.decks@.len() as int) =~= self.decks@);
            lemma_sanitize_wf(self.decks@, *enabled_json);
        }
        self.decks = kept;
    }
}

/// The run is consistent with the standing preference: no deck picked
/// twice, and every picked deck is currently enabled.
pub open spec fn run_wf(run: CurrentRunJson, enabled_json: EnabledJson) -> bool {
    &&& run.decks@.no_duplicates()
    &&& forall|d: usize| #[trigger] run.decks@.contains(d) ==> enabled_json.check_enabled_spec(d)
}

/// Counts threaded through the session instead of process-wide mutable
/// globals: how many decks a run needs and how many the catalog holds.
pub struct GameGlobals {
    pub decks_per_game: usize,
    pub total_decks: usize,
}

impl GameGlobals {
    pub fn new() -> (r: Self)
        ensures
            r.decks_per_game == 5,
            r.total_decks == 0,
    {
        GameGlobals { decks_per_game: 5, total_decks: 0 }
    }

    /// Record the catalog size after the catalog document was read.
    pub fn set_total_decks(&mut self, n: usize)
        ensures
            final(self).total_decks == n,
            final(self).decks_per_game == old(self).decks_per_game,
    {
        self.total_decks = n;
    }

    /// A run cannot need more decks than the catalog holds.
    pub fn clamp_decks_per_game(&mut self)
        ensures
            final(self).total_decks == old(self).total_decks,
            final(self).decks_per_game == if old(self).total_decks < old(self).decks_per_game {
                old(self).total_decks
            } else {
                old(self).decks_per_game
            },
    {
        if self.total_decks < self.decks_per_game {
            self.decks_per_game = self.total_decks;
        }
    }
}

/// How many more decks must be picked before the run can start.
pub fn remaining_picks(enabled_json: &EnabledJson, current_run_json: &CurrentRunJson) -> (r: usize)
    requires
        current_run_json.decks@.len() <= enabled_json.enabled@.len(),
    ensures
        r == enabled_json.enabled@.len() - current_run_json.decks@.len(),
{
    enabled_json.enabled.len() - current_run_json.decks.len()
}

/// The catalog indices below `n` that the run picked, in catalog order:
/// which decks need their assets resident for the game board.
pub open spec fn chosen_indices(decks: Seq<usize>, n: nat) -> Seq<usize>
    decreases n,
{
    if n == 0 {
        Seq::empty()
    } else {
        let k = (n - 1) as usize;
        let prev = chosen_indices(decks, (n - 1) as nat);
        if decks.contains(k) {
            prev.push(k)
        } else {
            prev
        }
    }
}

/// The picked catalog indices below `catalog_size`, in catalog order.
pub fn run_deck_indices(current_run_json: &CurrentRunJson, catalog_size: usize) -> (r: Vec<usize>)
    ensures
        r@ == chosen_indices(current_run_json.decks@, catalog_size as nat),
{
    let mut r: Vec<usize> = Vec::new();
    let mut i: usize = 0;
    while i < catalog_size
        invariant
            i <= catalog_size,
            r@ == chosen_indices(current_run_json.decks@, i as nat),
        decreases catalog_size - i,
    {
        if current_run_json.check_deck(&i) {
            r.push(i);
        }
        i += 1;
    }
    r
}

} // verus!
