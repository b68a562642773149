//! The codec for the three persisted JSON documents: the deck catalog,
//! the enabled-deck set and the current-run save. The caller reads and
//! writes the bytes; everything between bytes and model values is here.
//!
//! The decoder accepts the documents the encoder writes, with arbitrary
//! blank space (space, tab, line feed, carriage return) between tokens;
//! keys must stand in their canonical order. Numbers are unsigned
//! decimals that must fit the machine word; strings take the escapes
//! `\" \\ \/ \b \f \n \r \t` and reject other escapes and control bytes.
//! Anything else is a parse error, as is trailing content.

use vstd::prelude::*;

verus! {

/// Blank space between tokens.
pub open spec fn is_ws(c: u8) -> bool {
    c == 32 || c == 9 || c == 10 || c == 13
}

/// A decimal digit.
pub open spec fn is_digit(c: u8) -> bool {
    48 <= c && c <= 57
}

/// The first position at or after `pos` that holds no blank space.
pub open spec fn spec_skip_ws(b: Seq<u8>, pos: int) -> int
    decreases b.len() - pos,
{
    if 0 <= pos < b.len() && is_ws(b[pos]) {
        spec_skip_ws(b, pos + 1)
    } else {
        pos
    }
}

fn skip_ws(b: &Vec<u8>, pos: usize) -> (r: usize)
    requires
        pos <= b@.len(),
    ensures
        r == spec_skip_ws(b@, pos as int),
        pos <= r <= b@.len(),
{
    let mut i = pos;
    while i < b.len() && (b[i] == 32 || b[i] == 9 || b[i] == 10 || b[i] == 13)
        invariant
            pos <= i <= b@.len(),
            spec_skip_ws(b@, pos as int) == spec_skip_ws(b@, i as int),
        decreases b@.len() - i,
    {
        i += 1;
    }
    i
}

/// `pos` if the bytes at `pos` are exactly `lit`, else nothing.
pub open spec fn spec_expect(b: Seq<u8>, pos: int, lit: Seq<u8>) -> Option<int> {
    if 0 <= pos && pos + lit.len() <= b.len() && b.subrange(pos, pos + lit.len()) == lit {
        Some(pos + lit.len())
    } else {
        None
    }
}

fn expect_lit(b: &Vec<u8>, pos: usize, lit: &[u8]) -> (r: Option<usize>)
    requires
        pos <= b@.len(),
    ensures
        match r {
            Some(p) => spec_expect(b@, pos as int, lit@) == Some(p as int) && p <= b@.len(),
            None => spec_expect(b@, pos as int, lit@) is None,
        },
{
    if lit.len() > b.len() - pos {
        proof {
            assert(spec_expect(b@, pos as int, lit@) is None);
        }
        return None;
    }
    let mut i: usize = 0;
    while i < lit.len()
        invariant
            pos + lit@.len() <= b@.len(),
            b@.len() <= usize::MAX,
            i <= lit@.len(),
            forall|j: int| 0 <= j < i ==> b@[pos + j] == lit@[j],
        decreases lit@.len() - i,
    {
        if b[pos + i] != lit[i] {
            proof {
                assert(b@.subrange(pos as int, pos + lit@.len())[i as int] != lit@[i as int]);
            }
            return None;
        }
        i += 1;
    }
    proof {
        assert(b@.subrange(pos as int, pos + lit@.len()) =~= lit@);
    }
    Some(pos + lit.len())
}

/// The end of the run of digits that starts at `pos`.
pub open spec fn digit_run_end(b: Seq<u8>, pos: int) -> int
    decreases b.len() - pos,
{
    if 0 <= pos < b.len() && is_digit(b[pos]) {
        digit_run_end(b, pos + 1)
    } else {
        pos
    }
}

proof fn lemma_digit_run_end_bounds(b: Seq<u8>, pos: int)
    requires
        0 <= pos <= b.len(),
    ensures
        pos <= digit_run_end(b, pos) <= b.len(),
        digit_run_end(b, pos) < b.len() ==> !is_digit(b[digit_run_end(b, pos)]),
        forall|j: int| pos <= j < digit_run_end(b, pos) ==> is_digit(b[j]),
    decreases b.len() - pos,
{
    if pos < b.len() && is_digit(b[pos]) {
        lemma_digit_run_end_bounds(b, pos + 1);
    }
}

/// The value of the digits from `start` to `end`, most significant first.
pub open spec fn digits_val(b: Seq<u8>, start: int, end: int) -> int
    decreases end - start,
{
    if end <= start {
        0
    } else {
        digits_val(b, start, end - 1) * 10 + (b[end - 1] - 48)
    }
}

/// A longer digit run never has a smaller value.
proof fn lemma_digits_val_monotone(b: Seq<u8>, start: int, mid: int, end: int)
    requires
        start <= mid <= end <= b.len(),
        0 <= start,
        forall|j: int| start <= j < end ==> is_digit(b[j]),
    ensures
        digits_val(b, start, mid) <= digits_val(b, start, end),
        digits_val(b, start, end) >= 0,
    decreases end - mid,
{
    if mid == end {
        lemma_digits_val_nonneg(b, start, end);
    } else {
        lemma_digits_val_monotone(b, start, mid, end - 1);
        lemma_digits_val_nonneg(b, start, end - 1);
    }
}

proof fn lemma_digits_val_nonneg(b: Seq<u8>, start: int, end: int)
    requires
        0 <= start,
        end <= b.len(),
        forall|j: int| start <= j < end ==> is_digit(b[j]),
    ensures
        digits_val(b, start, end) >= 0,
    decreases end - start,
{
    if end > start {
        lemma_digits_val_nonneg(b, start, end - 1);
    }
}

/// The unsigned decimal at `pos`: its value and the position after it.
/// Nothing when no digit stands at `pos` or the value does not fit the
/// machine word.
pub open spec fn spec_parse_usize(b: Seq<u8>, pos: int) -> Option<(usize, int)> {
    let end = digit_run_end(b, pos);
    if end == pos {
        None
    } else if digits_val(b, pos, end) > usize::MAX {
        None
    } else {
        Some((digits_val(b, pos, end) as usize, end))
    }
}

fn parse_usize(b: &Vec<u8>, pos: usize) -> (r: Option<(usize, usize)>)
    requires
        pos <= b@.len(),
    ensures
        match r {
            Some((n, p)) => spec_parse_usize(b@, pos as int) == Some((n, p as int))
                && pos < p <= b@.len(),
            None => spec_parse_usize(b@, pos as int) is None,
        },
{
    proof {
        lemma_digit_run_end_bounds(b@, pos as int);
    }
    let ghost end = digit_run_end(b@, pos as int);
    let mut i = pos;
    let mut acc: usize = 0;
    while i < b.len() && 48 <= b[i] && b[i] <= 57
        invariant
            pos <= i <= b@.len(),
            end == digit_run_end(b@, pos as int),
            end == digit_run_end(b@, i as int),
            i <= end,
            acc == digits_val(b@, pos as int, i as int),
            forall|j: int| pos <= j < i ==> is_digit(b@[j]),
        decreases b@.len() - i,
    {
        proof {
            assert(end == digit_run_end(b@, (i + 1) as int));
            lemma_digit_run_end_bounds(b@, (i + 1) as int);
        }
        let d = b[i] - 48;
        let acc10 = match acc.checked_mul(10) {
            Some(v) => v,
            None => {
                proof {
                    lemma_digits_val_monotone(b@, pos as int, i + 1, end);
                    assert(digits_val(b@, pos as int, i + 1) > usize::MAX);
                }
                return None;
            },
        };
        let acc2 = match acc10.checked_add(d as usize) {
            Some(v) => v,
            None => {
                proof {
                    lemma_digits_val_monotone(b@, pos as int, i + 1, end);
                    assert(digits_val(b@, pos as int, i + 1) > usize::MAX);
                }
                return None;
            },
        };
        acc = acc2;
        i += 1;
    }
    proof {
        assert(digit_run_end(b@, i as int) == i);
    }
    if i == pos {
        None
    } else {
        Some((acc, i))
    }
}

/// The canonical decimal digits of `n`, most significant first.
pub open spec fn spec_enc_usize(n: nat) -> Seq<u8>
    decreases n,
{
    if n < 10 {
        seq![(48 + n) as u8]
    } else {
        spec_enc_usize(n / 10).push((48 + n % 10) as u8)
    }
}

/// Append the decimal digits of `n`.
fn push_usize(out: &mut Vec<u8>, n: usize)
    ensures
        final(out)@ == old(out)@ + spec_enc_usize(n as nat),
    decreases n,
{
    if n < 10 {
        out.push(48 + n as u8);
        proof {
            assert(out@ =~= old(out)@ + spec_enc_usize(n as nat));
        }
    } else {
        let ghost pre = out@;
        push_usize(out, n / 10);
        out.push(48 + (n % 10) as u8);
        proof {
            assert((n / 10) as nat == (n as nat) / 10);
            assert((n % 10) as nat == (n as nat) % 10);
            assert(out@ =~= pre + spec_enc_usize(n as nat));
        }
    }
}

/// The items of a list, comma-separated, without the brackets.
pub open spec fn spec_enc_items(s: Seq<usize>) -> Seq<u8>
    decreases s.len(),
{
    if s.len() == 0 {
        Seq::empty()
    } else if s.len() == 1 {
        spec_enc_usize(s[0] as nat)
    } else {
        spec_enc_usize(s[0] as nat) + seq![44u8] + spec_enc_items(s.drop_first())
    }
}

/// A bracketed, comma-separated list of unsigned decimals.
pub open spec fn spec_enc_list(s: Seq<usize>) -> Seq<u8> {
    seq![91u8] + spec_enc_items(s) + seq![93u8]
}

/// Append the items of `items[i..]`, comma-separated.
fn push_items_from(out: &mut Vec<u8>, items: &Vec<usize>, i: usize)
    requires
        i <= items@.len(),
    ensures
        final(out)@ == old(out)@ + spec_enc_items(items@.skip(i as int)),
    decreases items@.len() - i,
{
    let ghost pre = out@;
    if i < items.len() {
        push_usize(out, items[i]);
        if i + 1 < items.len() {
            out.push(44);
            let ghost mid = out@;
            push_items_from(out, items, i + 1);
            proof {
                let s = items@.skip(i as int);
                assert(s.len() >= 2);
                assert(s[0] == items@[i as int]);
                assert(s.drop_first() =~= items@.skip(i + 1));
                assert(mid =~= pre + spec_enc_usize(items@[i as int] as nat) + seq![44u8]);
                assert(out@ =~= pre + spec_enc_items(s));
            }
        } else {
            proof {
                let s = items@.skip(i as int);
                assert(s.len() == 1);
                assert(s[0] == items@[i as int]);
                assert(out@ =~= pre + spec_enc_items(s));
            }
        }
    } else {
        proof {
            assert(items@.skip(i as int).len() == 0);
            assert(out@ =~= pre + spec_enc_items(items@.skip(i as int)));
        }
    }
}

/// Append `items` as a bracketed list.
fn push_list(out: &mut Vec<u8>, items: &Vec<usize>)
    ensures
        final(out)@ == old(out)@ + spec_enc_list(items@),
{
    let ghost pre = out@;
    out.push(91);
    push_items_from(out, items, 0);
    out.push(93);
    proof {
        assert(items@.skip(0) =~= items@);
        assert(out@ =~= pre + spec_enc_list(items@));
    }
}

/// One or more comma-separated decimals and the closing bracket, as they
/// stand after a list's opening bracket and any blank space.
pub open spec fn spec_parse_items(b: Seq<u8>, pos: int) -> Option<(Seq<usize>, int)>
    decreases b.len() - pos,
{
    match spec_parse_usize(b, pos) {
        None => None,
        Some((n, p1)) => {
            let p2 = spec_skip_ws(b, p1);
            if 0 <= p2 < b.len() && b[p2] == 44 {
                let p3 = spec_skip_ws(b, p2 + 1);
                if pos < p3 <= b.len() {
                    match spec_parse_items(b, p3) {
                        None => None,
                        Some((s, p4)) => Some((seq![n] + s, p4)),
                    }
                } else {
                    None
                }
            } else if 0 <= p2 < b.len() && b[p2] == 93 {
                Some((seq![n], p2 + 1))
            } else {
                None
            }
        },
    }
}

/// A bracketed list of unsigned decimals at `pos`: its items and the
/// position after the closing bracket.
pub open spec fn spec_parse_list(b: Seq<u8>, pos: int) -> Option<(Seq<usize>, int)> {
    if 0 <= pos < b.len() && b[pos] == 91 {
        let p1 = spec_skip_ws(b, pos + 1);
        if p1 < b.len() && b[p1] == 93 {
            Some((Seq::empty(), p1 + 1))
        } else {
            spec_parse_items(b, p1)
        }
    } else {
        None
    }
}

fn parse_items(b: &Vec<u8>, pos: usize) -> (r: Option<(Vec<usize>, usize)>)
    requires
        pos <= b@.len(),
    ensures
        match r {
            Some((v, q)) => spec_parse_items(b@, pos as int) == Some((v@, q as int))
                && q <= b@.len(),
            None => spec_parse_items(b@, pos as int) is None,
        },
    decreases b@.len() - pos,
{
    let (n, p1) = match parse_usize(b, pos) {
        None => {
            return None;
        },
        Some(x) => x,
    };
    let p2 = skip_ws(b, p1);
    if p2 < b.len() && b[p2] == 44 {
        let p3 = skip_ws(b, p2 + 1);
        match parse_items(b, p3) {
            None => None,
            Some((v, p4)) => {
                let mut v2 = v;
                v2.insert(0, n);
                proof {
                    assert(v2@ =~= seq![n] + v@);
                }
                Some((v2, p4))
            },
        }
    } else if p2 < b.len() && b[p2] == 93 {
        let mut v: Vec<usize> = Vec::new();
        v.push(n);
        proof {
            assert(v@ =~= seq![n]);
        }
        Some((v, p2 + 1))
    } else {
        None
    }
}

fn parse_list(b: &Vec<u8>, pos: usize) -> (r: Option<(Vec<usize>, usize)>)
    requires
        pos <= b@.len(),
    ensures
        match r {
            Some((v, q)) => spec_parse_list(b@, pos as int) == Some((v@, q as int))
                && q <= b@.len(),
            None => spec_parse_list(b@, pos as int) is None,
        },
{
    if pos >= b.len() || b[pos] != 91 {
        return None;
    }
    let p1 = skip_ws(b, pos + 1);
    if p1 < b.len() && b[p1] == 93 {
        let v: Vec<usize> = Vec::new();
        proof {
            assert(v@ =~= Seq::<usize>::empty());
        }
        Some((v, p1 + 1))
    } else {
        parse_items(b, p1)
    }
}

/// Errors of the persistent store: the file could not be read or
/// written, or its bytes are not a well-formed document.
#[derive(Clone, Copy, Debug, PartialEq, Eq, Structural)]
pub enum DocError {
    Io,
    Parse,
}

/// The quoted key `"disabled"`.
pub open spec fn spec_key_disabled() -> Seq<u8> {
    seq![34u8, 100u8, 105u8, 115u8, 97u8, 98u8, 108u8, 101u8, 100u8, 34u8]
}

/// The quoted key `"enabled"`.
pub open spec fn spec_key_enabled() -> Seq<u8> {
    seq![34u8, 101u8, 110u8, 97u8, 98u8, 108u8, 101u8, 100u8, 34u8]
}

/// The enabled-deck document: the two index lists under their keys, in
/// canonical order, without blank space.
pub open spec fn spec_enc_enabled(dis: Seq<usize>, en: Seq<usize>) -> Seq<u8> {
    seq![123u8] + spec_key_disabled() + seq![58u8] + spec_enc_list(dis) + seq![44u8]
        + spec_key_enabled() + seq![58u8] + spec_enc_list(en) + seq![125u8]
}

/// A key and its bracketed list value: blank space, the key, blank
/// space, a colon, blank space, the list.
pub open spec fn spec_parse_list_field(b: Seq<u8>, pos: int, key: Seq<u8>) -> Option<
    (Seq<usize>, int),
> {
    let p0 = spec_skip_ws(b, pos);
    match spec_expect(b, p0, key) {
        None => None,
        Some(p1) => {
            let p2 = spec_skip_ws(b, p1);
            match spec_expect(b, p2, seq![58u8]) {
                None => None,
                Some(p3) => spec_parse_list(b, spec_skip_ws(b, p3)),
            }
        },
    }
}

fn parse_list_field(b: &Vec<u8>, pos: usize, key: &[u8]) -> (r: Option<(Vec<usize>, usize)>)
    requires
        pos <= b@.len(),
    ensures
        match r {
            Some((v, q)) => spec_parse_list_field(b@, pos as int, key@) == Some((v@, q as int))
                && q <= b@.len(),
            None => spec_parse_list_field(b@, pos as int, key@) is None,
        },
{
    let p0 = skip_ws(b, pos);
    let p1 = match expect_lit(b, p0, key) {
        None => {
            return None;
        },
        Some(p) => p,
    };
    let p2 = skip_ws(b, p1);
    let colon: &[u8] = &[58];
    proof {
        assert(colon@ =~= seq![58u8]);
    }
    let p3 = match expect_lit(b, p2, colon) {
        None => {
            return None;
        },
        Some(p) => p,
    };
    parse_list(b, skip_ws(b, p3))
}

/// The whole enabled-deck document: `{`, the disabled list, a comma, the
/// enabled list, `}`, and nothing but blank space after.
pub open spec fn spec_parse_enabled(b: Seq<u8>) -> Option<(Seq<usize>, Seq<usize>)> {
    let p0 = spec_skip_ws(b, 0);
    match spec_expect(b, p0, seq![123u8]) {
        None => None,
        Some(p1) => match spec_parse_list_field(b, p1, spec_key_disabled()) {
            None => None,
            Some((dis, p2)) => {
                let p3 = spec_skip_ws(b, p2);
                match spec_expect(b, p3, seq![44u8]) {
                    None => None,
                    Some(p4) => match spec_parse_list_field(b, p4, spec_key_enabled()) {
                        None => None,
                        Some((en, p5)) => {
                            let p6 = spec_skip_ws(b, p5);
                            match spec_expect(b, p6, seq![125u8]) {
                                None => None,
                                Some(p7) => {
                                    if spec_skip_ws(b, p7) == b.len() {
                                        Some((dis, en))
                                    } else {
                                        None
                                    }
                                },
                            }
                        },
                    },
                }
            },
        },
    }
}

/// The two lists are duplicate-free and disjoint: what
/// [`crate::decks::EnabledJson::wf`] asks of the loaded state.
pub open spec fn lists_wf(dis: Seq<usize>, en: Seq<usize>) -> bool {
    &&& en.no_duplicates()
    &&& dis.no_duplicates()
    &&& forall|d: usize| #[trigger] en.contains(d) ==> !dis.contains(d)
}

/// True if `v` repeats no value.
fn vec_no_dup(v: &Vec<usize>) -> (r: bool)
    ensures
        r == v@.no_duplicates(),
{
    let mut i: usize = 0;
    while i < v.len()
        invariant
            i <= v@.len(),
            forall|k: int, l: int| 0 <= k < l < i ==> v@[k] != v@[l],
        decreases v@.len() - i,
    {
        let mut j: usize = 0;
        while j < i
            invariant
                j <= i < v@.len(),
                forall|k: int, l: int| 0 <= k < l < i ==> v@[k] != v@[l],
                forall|k: int| 0 <= k < j ==> v@[k] != v@[i as int],
            decreases i - j,
        {
            if v[j] == v[i] {
                return false;
            }
            j += 1;
        }
        i += 1;
    }
    proof {
        assert forall|k: int, l: int|
            0 <= k < v@.len() && 0 <= l < v@.len() && k != l implies v@[k] != v@[l] by {
            if k < l {
            } else {
            }
        }
    }
    true
}

/// True if no value of `a` occurs in `b`.
fn vecs_disjoint(a: &Vec<usize>, b: &Vec<usize>) -> (r: bool)
    ensures
        r == forall|d: usize| #[trigger] a@.contains(d) ==> !b@.contains(d),
{
    let mut i: usize = 0;
    while i < a.len()
        invariant
            i <= a@.len(),
            forall|k: int| 0 <= k < i ==> !b@.contains(a@[k]),
        decreases a@.len() - i,
    {
        if crate::decks::vec_contains_usize(b, a[i]) {
            proof {
                assert(a@.contains(a@[i as int]));
            }
            return false;
        }
        i += 1;
    }
    proof {
        assert forall|d: usize| #[trigger] a@.contains(d) implies !b@.contains(d) by {
            let k = choose|k: int| 0 <= k < a@.len() && a@[k] == d;
        }
    }
    true
}

/// Write the enabled-deck set as its document.
pub fn encode_enabled(e: &crate::decks::EnabledJson) -> (r: Vec<u8>)
    ensures
        r@ == spec_enc_enabled(e.disabled@, e.enabled@),
{
    let mut out: Vec<u8> = Vec::new();
    out.push(123);
    out.extend_from_slice(&[34, 100, 105, 115, 97, 98, 108, 101, 100, 34]);
    out.push(58);
    push_list(&mut out, &e.disabled);
    out.push(44);
    out.extend_from_slice(&[34, 101, 110, 97, 98, 108, 101, 100, 34]);
    out.push(58);
    push_list(&mut out, &e.enabled);
    out.push(125);
    proof {
        assert(out@ =~= spec_enc_enabled(e.disabled@, e.enabled@));
    }
    out
}

/// Read the enabled-deck set from its document. The parsed lists must
/// also satisfy the model's invariant, duplicate-free and disjoint; a
/// document that breaks it is as malformed as one that does not parse.
pub fn decode_enabled(b: &Vec<u8>) -> (r: Result<crate::decks::EnabledJson, DocError>)
    ensures
        match spec_parse_enabled(b@) {
            Some(lists) => {
                if lists_wf(lists.0, lists.1) {
                    match r {
                        Ok(e) => e.disabled@ == lists.0 && e.enabled@ == lists.1 && e.wf(),
                        Err(_) => false,
                    }
                } else {
                    r == Err::<crate::decks::EnabledJson, DocError>(DocError::Parse)
                }
            },
            None => r == Err::<crate::decks::EnabledJson, DocError>(DocError::Parse),
        },
{
    let brace_open: &[u8] = &[123];
    let brace_close: &[u8] = &[125];
    let comma: &[u8] = &[44];
    let key_dis: &[u8] = &[34, 100, 105, 115, 97, 98, 108, 101, 100, 34];
    let key_en: &[u8] = &[34, 101, 110, 97, 98, 108, 101, 100, 34];
    proof {
        assert(brace_open@ =~= seq![123u8]);
        assert(brace_close@ =~= seq![125u8]);
        assert(comma@ =~= seq![44u8]);
        assert(key_dis@ =~= spec_key_disabled());
        assert(key_en@ =~= spec_key_enabled());
    }
    let p0 = skip_ws(b, 0);
    let p1 = match expect_lit(b, p0, brace_open) {
        None => {
            return Err(DocError::Parse);
        },
        Some(p) => p,
    };
    let (dis, p2) = match parse_list_field(b, p1, key_dis) {
        None => {
            return Err(DocError::Parse);
        },
        Some(x) => x,
    };
    let p3 = skip_ws(b, p2);
    let p4 = match expect_lit(b, p3, comma) {
        None => {
            return Err(DocError::Parse);
        },
        Some(p) => p,
    };
    let (en, p5) = match parse_list_field(b, p4, key_en) {
        None => {
            return Err(DocError::Parse);
        },
        Some(x) => x,
    };
    let p6 = skip_ws(b, p5);
    let p7 = match expect_lit(b, p6, brace_close) {
        None => {
            return Err(DocError::Parse);
        },
        Some(p) => p,
    };
    if skip_ws(b, p7) != b.len() {
        return Err(DocError::Parse);
    }
    if !vec_no_dup(&dis) || !vec_no_dup(&en) || !vecs_disjoint(&en, &dis) {
        return Err(DocError::Parse);
    }
    Ok(crate::decks::EnabledJson { disabled: dis, enabled: en })
}

/// The quoted key `"decks"`.
pub open spec fn spec_key_decks() -> Seq<u8> {
    seq![34u8, 100u8, 101u8, 99u8, 107u8, 115u8, 34u8]
}

/// The quoted key `"score"`.
pub open spec fn spec_key_score() -> Seq<u8> {
    seq![34u8, 115u8, 99u8, 111u8, 114u8, 101u8, 34u8]
}

/// The quoted key `"hand"`.
pub open spec fn spec_key_hand() -> Seq<u8> {
    seq![34u8, 104u8, 97u8, 110u8, 100u8, 34u8]
}

/// The current-run document: the picked decks, the score and the hand
/// under their keys, in canonical order, without blank space.
pub open spec fn spec_enc_run(decks: Seq<usize>, score: usize, hand: Seq<usize>) -> Seq<u8> {
    seq![123u8] + spec_key_decks() + seq![58u8] + spec_enc_list(decks) + seq![44u8]
        + spec_key_score() + seq![58u8] + spec_enc_usize(score as nat) + seq![44u8]
        + spec_key_hand() + seq![58u8] + spec_enc_list(hand) + seq![125u8]
}

/// A key and its unsigned decimal value.
pub open spec fn spec_parse_usize_field(b: Seq<u8>, pos: int, key: Seq<u8>) -> Option<
    (usize, int),
> {
    let p0 = spec_skip_ws(b, pos);
    match spec_expect(b, p0, key) {
        None => None,
        Some(p1) => {
            let p2 = spec_skip_ws(b, p1);
            match spec_expect(b, p2, seq![58u8]) {
                None => None,
                Some(p3) => spec_parse_usize(b, spec_skip_ws(b, p3)),
            }
        },
    }
}

fn parse_usize_field(b: &Vec<u8>, pos: usize, key: &[u8]) -> (r: Option<(usize, usize)>)
    requires
        pos <= b@.len(),
    ensures
        match r {
            Some((n, q)) => spec_parse_usize_field(b@, pos as int, key@) == Some((n, q as int))
                && pos < q <= b@.len(),
            None => spec_parse_usize_field(b@, pos as int, key@) is None,
        },
{
    let p0 = skip_ws(b, pos);
    let p1 = match expect_lit(b, p0, key) {
        None => {
            return None;
        },
        Some(p) => p,
    };
    let p2 = skip_ws(b, p1);
    let colon: &[u8] = &[58];
    proof {
        assert(colon@ =~= seq![58u8]);
    }
    let p3 = match expect_lit(b, p2, colon) {
        None => {
            return None;
        },
        Some(p) => p,
    };
    parse_usize(b, skip_ws(b, p3))
}

/// The whole current-run document: `{`, the deck list, the score, the
/// hand list, `}`, and nothing but blank space after.
pub open spec fn spec_parse_run(b: Seq<u8>) -> Option<(Seq<usize>, usize, Seq<usize>)> {
    let p0 = spec_skip_ws(b, 0);
    match spec_expect(b, p0, seq![123u8]) {
        None => None,
        Some(p1) => match spec_parse_list_field(b, p1, spec_key_decks()) {
            None => None,
            Some((decks, p2)) => {
                let p3 = spec_skip_ws(b, p2);
                match spec_expect(b, p3, seq![44u8]) {
                    None => None,
                    Some(p4) => match spec_parse_usize_field(b, p4, spec_key_score()) {
                        None => None,
                        Some((score, p5)) => {
                            let p6 = spec_skip_ws(b, p5);
                            match spec_expect(b, p6, seq![44u8]) {
                                None => None,
                                Some(p7) => match spec_parse_list_field(b, p7, spec_key_hand()) {
                                    None => None,
                                    Some((hand, p8)) => {
                                        let p9 = spec_skip_ws(b, p8);
                                        match spec_expect(b, p9, seq![125u8]) {
                                            None => None,
                                            Some(p10) => {
                                                if spec_skip_ws(b, p10) == b.len() {
                                                    Some((decks, score, hand))
                                                } else {
                                                    None
                                                }
                                            },
                                        }
                                    },
                                },
                            }
                        },
                    },
                }
            },
        },
    }
}

/// Write the current run as its document.
pub fn encode_current_run(c: &crate::decks::CurrentRunJson) -> (r: Vec<u8>)
    ensures
        r@ == spec_enc_run(c.decks@, c.score, c.hand@),
{
    let mut out: Vec<u8> = Vec::new();
    out.push(123);
    out.extend_from_slice(&[34, 100, 101, 99, 107, 115, 34]);
    out.push(58);
    push_list(&mut out, &c.decks);
    out.push(44);
    out.extend_from_slice(&[34, 115, 99, 111, 114, 101, 34]);
    out.push(58);
    push_usize(&mut out, c.score);
    out.push(44);
    out.extend_from_slice(&[34, 104, 97, 110, 100, 34]);
    out.push(58);
    push_list(&mut out, &c.hand);
    out.push(125);
    proof {
        assert(out@ =~= spec_enc_run(c.decks@, c.score, c.hand@));
    }
    out
}

/// Read the current run from its document.
pub fn decode_current_run(b: &Vec<u8>) -> (r: Result<crate::decks::CurrentRunJson, DocError>)
    ensures
        match spec_parse_run(b@) {
            Some(t) => match r {
                Ok(c) => c.decks@ == t.0 && c.score == t.1 && c.hand@ == t.2,
                Err(_) => false,
            },
            None => r == Err::<crate::decks::CurrentRunJson, DocError>(DocError::Parse),
        },
{
    let brace_open: &[u8] = &[123];
    let brace_close: &[u8] = &[125];
    let comma: &[u8] = &[44];
    let key_decks: &[u8] = &[34, 100, 101, 99, 107, 115, 34];
    let key_score: &[u8] = &[34, 115, 99, 111, 114, 101, 34];
    let key_hand: &[u8] = &[34, 104, 97, 110, 100, 34];
    proof {
        assert(brace_open@ =~= seq![123u8]);
        assert(brace_close@ =~= seq![125u8]);
        assert(comma@ =~= seq![44u8]);
        assert(key_decks@ =~= spec_key_decks());
        assert(key_score@ =~= spec_key_score());
        assert(key_hand@ =~= spec_key_hand());
    }
    let p0 = skip_ws(b, 0);
    let p1 = match expect_lit(b, p0, brace_open) {
        None => {
            return Err(DocError::Parse);
        },
        Some(p) => p,
    };
    let (decks, p2) = match parse_list_field(b, p1, key_decks) {
        None => {
            return Err(DocError::Parse);
        },
        Some(x) => x,
    };
    let p3 = skip_ws(b, p2);
    let p4 = match expect_lit(b, p3, comma) {
        None => {
            return Err(DocError::Parse);
        },
        Some(p) => p,
    };
    let (score, p5) = match parse_usize_field(b, p4, key_score) {
        None => {
            return Err(DocError::Parse);
        },
        Some(x) => x,
    };
    let p6 = skip_ws(b, p5);
    let p7 = match expect_lit(b, p6, comma) {
        None => {
            return Err(DocError::Parse);
        },
        Some(p) => p,
    };
    let (hand, p8) = match parse_list_field(b, p7, key_hand) {
        None => {
            return Err(DocError::Parse);
        },
        Some(x) => x,
    };
    let p9 = skip_ws(b, p8);
    let p10 = match expect_lit(b, p9, brace_close) {
        None => {
            return Err(DocError::Parse);
        },
        Some(p) => p,
    };
    if skip_ws(b, p10) != b.len() {
        return Err(DocError::Parse);
    }
    Ok(crate::decks::CurrentRunJson { decks, score, hand })
}

/// Every byte of an encoded decimal is a digit, and there is at least one.
proof fn lemma_enc_usize_digits(n: nat)
    ensures
        spec_enc_usize(n).len() >= 1,
        forall|i: int| 0 <= i < spec_enc_usize(n).len() ==> is_digit(#[trigger] spec_enc_usize(n)[i]),
    decreases n,
{
    if n >= 10 {
        lemma_enc_usize_digits(n / 10);
        let e = spec_enc_usize(n);
        let pre = spec_enc_usize(n / 10);
        assert forall|i: int| 0 <= i < e.len() implies is_digit(#[trigger] e[i]) by {
            if i < pre.len() {
                assert(e[i] == pre[i]);
            }
        }
    }
}

/// Blank-space skipping stops at once on anything that is not blank.
proof fn lemma_skip_ws_at(b: Seq<u8>, pos: int)
    requires
        0 <= pos,
        pos >= b.len() || !is_ws(b[pos]),
    ensures
        spec_skip_ws(b, pos) == pos,
{
}

/// A run of digits bounded by a non-digit ends exactly at the bound.
proof fn lemma_dre_of_run(b: Seq<u8>, pos: int, e: int)
    requires
        0 <= pos <= e <= b.len(),
        forall|j: int| pos <= j < e ==> is_digit(b[j]),
        e == b.len() || !is_digit(b[e]),
    ensures
        digit_run_end(b, pos) == e,
    decreases e - pos,
{
    if pos < e {
        lemma_dre_of_run(b, pos + 1, e);
    }
}

/// The digits of an encoded decimal evaluate back to it.
proof fn lemma_digits_val_of_enc(b: Seq<u8>, pos: int, n: nat)
    requires
        0 <= pos,
        pos + spec_enc_usize(n).len() <= b.len(),
        b.subrange(pos, pos + spec_enc_usize(n).len() as int) == spec_enc_usize(n),
    ensures
        digits_val(b, pos, pos + spec_enc_usize(n).len() as int) == n,
    decreases n,
{
    let e = spec_enc_usize(n);
    let l = e.len() as int;
    if n < 10 {
        assert(b[pos] == e[0]);
        assert(digits_val(b, pos, pos) == 0);
        assert(digits_val(b, pos, pos + 1) == digits_val(b, pos, pos) * 10 + (b[pos] - 48));
    } else {
        let pre = spec_enc_usize(n / 10);
        let lp = pre.len() as int;
        assert(l == lp + 1);
        assert(b.subrange(pos, pos + lp) =~= pre) by {
            assert forall|j: int| 0 <= j < lp implies b.subrange(pos, pos + lp)[j] == pre[j] by {
                assert(b[pos + j] == e[j]);
            }
        }
        lemma_digits_val_of_enc(b, pos, n / 10);
        assert(b[pos + l - 1] == e[l - 1]);
        assert(e[l - 1] == (48 + n % 10) as u8);
        assert(digits_val(b, pos, pos + l) == digits_val(b, pos, pos + l - 1) * 10 + (b[pos + l
            - 1] - 48));
        assert(digits_val(b, pos, pos + l) == (n / 10) * 10 + n % 10);
        assert((n / 10) * 10 + n % 10 == n) by (nonlinear_arith);
    }
}

/// Parsing right after an encoded decimal that is followed by a
/// non-digit yields exactly the encoded value.
proof fn lemma_parse_enc_usize(b: Seq<u8>, pos: int, n: usize)
    requires
        0 <= pos,
        pos + spec_enc_usize(n as nat).len() <= b.len(),
        b.subrange(pos, pos + spec_enc_usize(n as nat).len() as int) == spec_enc_usize(n as nat),
        pos + spec_enc_usize(n as nat).len() == b.len() || !is_digit(
            b[pos + spec_enc_usize(n as nat).len()],
        ),
    ensures
        spec_parse_usize(b, pos) == Some((n, pos + spec_enc_usize(n as nat).len() as int)),
{
    let e = spec_enc_usize(n as nat);
    let l = e.len() as int;
    lemma_enc_usize_digits(n as nat);
    assert forall|j: int| pos <= j < pos + l implies is_digit(b[j]) by {
        assert(b[j] == e[j - pos]);
    }
    lemma_dre_of_run(b, pos, pos + l);
    lemma_digits_val_of_enc(b, pos, n as nat);
}

/// The encoded items of a non-empty list start with a digit.
proof fn lemma_enc_items_first_digit(s: Seq<usize>)
    requires
        s.len() >= 1,
    ensures
        spec_enc_items(s).len() >= 1,
        is_digit(spec_enc_items(s)[0]),
{
    lemma_enc_usize_digits(s[0] as nat);
    if s.len() > 1 {
        assert(spec_enc_items(s)[0] == spec_enc_usize(s[0] as nat)[0]);
    }
}

/// Parsing right after the encoded items of a non-empty list, with the
/// closing bracket straight after them, yields exactly those items and
/// stops after the bracket.
proof fn lemma_parse_enc_items(b: Seq<u8>, pos: int, s: Seq<usize>)
    requires
        s.len() >= 1,
        0 <= pos,
        pos + spec_enc_items(s).len() < b.len(),
        b.subrange(pos, pos + spec_enc_items(s).len() as int) == spec_enc_items(s),
        b[pos + spec_enc_items(s).len()] == 93,
    ensures
        spec_parse_items(b, pos) == Some((s, pos + spec_enc_items(s).len() + 1)),
    decreases s.len(),
{
    let e = spec_enc_items(s);
    let l = e.len() as int;
    let e0 = spec_enc_usize(s[0] as nat);
    let l0 = e0.len() as int;
    lemma_enc_usize_digits(s[0] as nat);
    if s.len() == 1 {
        assert(b.subrange(pos, pos + l0) =~= e0);
        lemma_parse_enc_usize(b, pos, s[0]);
        lemma_skip_ws_at(b, pos + l0);
        assert(spec_skip_ws(b, pos + l0) == pos + l0);
        assert(b[pos + l0] == 93);
        assert(seq![s[0]] =~= s);
    } else {
        let rest = s.drop_first();
        let er = spec_enc_items(rest);
        let lr = er.len() as int;
        assert(e =~= e0 + seq![44u8] + er);
        assert(l == l0 + 1 + lr);
        assert(b.subrange(pos, pos + l0) =~= e0) by {
            assert forall|j: int| 0 <= j < l0 implies b.subrange(pos, pos + l0)[j] == e0[j] by {
                assert(b[pos + j] == e[j]);
            }
        }
        assert(b[pos + l0] == e[l0]);
        assert(e[l0] == 44);
        lemma_parse_enc_usize(b, pos, s[0]);
        lemma_skip_ws_at(b, pos + l0);
        lemma_enc_items_first_digit(rest);
        assert(b[pos + l0 + 1] == e[l0 + 1]);
        assert(e[l0 + 1] == er[0]);
        lemma_skip_ws_at(b, pos + l0 + 1);
        assert(b.subrange(pos + l0 + 1, pos + l0 + 1 + lr) =~= er) by {
            assert forall|j: int| 0 <= j < lr implies b.subrange(pos + l0 + 1, pos + l0 + 1 + lr)[j]
                == er[j] by {
                assert(b[pos + l0 + 1 + j] == e[l0 + 1 + j]);
            }
        }
        assert(b[pos + l0 + 1 + lr] == 93);
        lemma_parse_enc_items(b, pos + l0 + 1, rest);
        assert(seq![s[0]] + rest =~= s);
    }
}

/// Parsing right after an encoded list yields exactly its items and
/// stops right after the closing bracket.
proof fn lemma_parse_enc_list(b: Seq<u8>, pos: int, s: Seq<usize>)
    requires
        0 <= pos,
        pos + spec_enc_list(s).len() <= b.len(),
        b.subrange(pos, pos + spec_enc_list(s).len() as int) == spec_enc_list(s),
    ensures
        spec_parse_list(b, pos) == Some((s, pos + spec_enc_list(s).len() as int)),
{
    let e = spec_enc_list(s);
    let ei = spec_enc_items(s);
    let l = e.len() as int;
    let li = ei.len() as int;
    assert(l == li + 2);
    assert(b[pos] == e[0]);
    assert(e[0] == 91);
    assert(b[pos + 1] == e[1]);
    if s.len() == 0 {
        assert(li == 0);
        assert(e[1] == 93);
        lemma_skip_ws_at(b, pos + 1);
        assert(Seq::<usize>::empty() =~= s);
    } else {
        lemma_enc_items_first_digit(s);
        assert(e[1] == ei[0]);
        lemma_skip_ws_at(b, pos + 1);
        assert(b.subrange(pos + 1, pos + 1 + li) =~= ei) by {
            assert forall|j: int| 0 <= j < li implies b.subrange(pos + 1, pos + 1 + li)[j] == ei[j]
                by {
                assert(b[pos + 1 + j] == e[1 + j]);
            }
        }
        assert(b[pos + 1 + li] == e[1 + li]);
        assert(e[1 + li] == 93);
        lemma_parse_enc_items(b, pos + 1, s);
    }
}

/// Parsing a key-and-list field right on its canonical encoding yields
/// exactly the encoded items.
proof fn lemma_parse_enc_list_field(b: Seq<u8>, pos: int, key: Seq<u8>, s: Seq<usize>)
    requires
        0 <= pos,
        key.len() >= 1,
        key[0] == 34,
        pos + key.len() + 1 + spec_enc_list(s).len() <= b.len(),
        b.subrange(pos, pos + key.len() + 1 + spec_enc_list(s).len()) == key + seq![58u8]
            + spec_enc_list(s),
    ensures
        spec_parse_list_field(b, pos, key) == Some(
            (s, pos + key.len() + 1 + spec_enc_list(s).len()),
        ),
{
    let k = key.len() as int;
    let el = spec_enc_list(s);
    let l = el.len() as int;
    let comp = key + seq![58u8] + el;
    assert forall|j: int| 0 <= j < k + 1 + l implies b[pos + j] == comp[j] by {
        assert(b.subrange(pos, pos + k + 1 + l)[j] == comp[j]);
    }
    assert(b[pos + 0] == comp[0]);
    assert(comp[0] == key[0]);
    lemma_skip_ws_at(b, pos);
    assert(b.subrange(pos, pos + k) =~= key) by {
        assert forall|j: int| 0 <= j < k implies b.subrange(pos, pos + k)[j] == key[j] by {
            assert(b[pos + j] == comp[j]);
            assert(comp[j] == key[j]);
        }
    }
    assert(b[pos + k] == comp[k]);
    assert(comp[k] == 58);
    lemma_skip_ws_at(b, pos + k);
    assert(b.subrange(pos + k, pos + k + 1) =~= seq![58u8]);
    assert(b[pos + k + 1] == comp[k + 1]);
    assert(comp[k + 1] == el[0]);
    assert(el[0] == 91);
    lemma_skip_ws_at(b, pos + k + 1);
    assert(b.subrange(pos + k + 1, pos + k + 1 + l) =~= el) by {
        assert forall|j: int| 0 <= j < l implies b.subrange(pos + k + 1, pos + k + 1 + l)[j]
            == el[j] by {
            assert(b[pos + (k + 1 + j)] == comp[k + 1 + j]);
            assert(comp[k + 1 + j] == el[j]);
        }
    }
    lemma_parse_enc_list(b, pos + k + 1, s);
}

/// Parsing a key-and-number field right on its canonical encoding yields
/// exactly the encoded value.
proof fn lemma_parse_enc_usize_field(b: Seq<u8>, pos: int, key: Seq<u8>, n: usize)
    requires
        0 <= pos,
        key.len() >= 1,
        key[0] == 34,
        pos + key.len() + 1 + spec_enc_usize(n as nat).len() <= b.len(),
        b.subrange(pos, pos + key.len() + 1 + spec_enc_usize(n as nat).len()) == key + seq![58u8]
            + spec_enc_usize(n as nat),
        pos + key.len() + 1 + spec_enc_usize(n as nat).len() == b.len() || !is_digit(
            b[pos + key.len() + 1 + spec_enc_usize(n as nat).len()],
        ),
    ensures
        spec_parse_usize_field(b, pos, key) == Some(
            (n, pos + key.len() + 1 + spec_enc_usize(n as nat).len()),
        ),
{
    let k = key.len() as int;
    let en = spec_enc_usize(n as nat);
    let l = en.len() as int;
    let comp = key + seq![58u8] + en;
    lemma_enc_usize_digits(n as nat);
    assert forall|j: int| 0 <= j < k + 1 + l implies b[pos + j] == comp[j] by {
        assert(b.subrange(pos, pos + k + 1 + l)[j] == comp[j]);
    }
    assert(b[pos + 0] == comp[0]);
    assert(comp[0] == key[0]);
    lemma_skip_ws_at(b, pos);
    assert(b.subrange(pos, pos + k) =~= key) by {
        assert forall|j: int| 0 <= j < k implies b.subrange(pos, pos + k)[j] == key[j] by {
            assert(b[pos + j] == comp[j]);
            assert(comp[j] == key[j]);
        }
    }
    assert(b[pos + k] == comp[k]);
    assert(comp[k] == 58);
    lemma_skip_ws_at(b, pos + k);
    assert(b.subrange(pos + k, pos + k + 1) =~= seq![58u8]);
    assert(b[pos + k + 1] == comp[k + 1]);
    assert(comp[k + 1] == en[0]);
    assert(is_digit(en[0]));
    lemma_skip_ws_at(b, pos + k + 1);
    assert(b.subrange(pos + k + 1, pos + k + 1 + l) =~= en) by {
        assert forall|j: int| 0 <= j < l implies b.subrange(pos + k + 1, pos + k + 1 + l)[j]
            == en[j] by {
            assert(b[pos + (k + 1 + j)] == comp[k + 1 + j]);
            assert(comp[k + 1 + j] == en[j]);
        }
    }
    lemma_parse_enc_usize(b, pos + k + 1, n);
}

/// Law: the enabled-deck document round-trips. Whatever two lists are
/// saved, parsing the saved bytes gives exactly those lists back; with
/// the exec contracts of [`encode_enabled`] and [`decode_enabled`], a
/// well-formed enabled set always reloads as itself.
#[verifier::rlimit(100)]
pub proof fn lemma_enabled_round_trip(dis: Seq<usize>, en: Seq<usize>)
    ensures
        spec_parse_enabled(spec_enc_enabled(dis, en)) == Some((dis, en)),
{
    let b = spec_enc_enabled(dis, en);
    let kd = spec_key_disabled();
    let ke = spec_key_enabled();
    let ld = spec_enc_list(dis);
    let le = spec_enc_list(en);
    let l1 = ld.len() as int;
    let l2 = le.len() as int;
    assert(b.len() == 24 + l1 + l2);
    assert(b[0] == 123);
    lemma_skip_ws_at(b, 0);
    assert(b.subrange(0, 1) =~= seq![123u8]);
    assert(b.subrange(1, 12 + l1) =~= kd + seq![58u8] + ld);
    lemma_parse_enc_list_field(b, 1, kd, dis);
    assert(b[12 + l1] == 44);
    lemma_skip_ws_at(b, 12 + l1);
    assert(b.subrange(12 + l1, 13 + l1) =~= seq![44u8]);
    assert(b.subrange(13 + l1, 23 + l1 + l2) =~= ke + seq![58u8] + le);
    lemma_parse_enc_list_field(b, 13 + l1, ke, en);
    assert(b[23 + l1 + l2] == 125);
    lemma_skip_ws_at(b, 23 + l1 + l2);
    assert(b.subrange(23 + l1 + l2, 24 + l1 + l2) =~= seq![125u8]);
    lemma_skip_ws_at(b, 24 + l1 + l2);
}

/// Law: the current-run document round-trips in the same way.
#[verifier::rlimit(100)]
pub proof fn lemma_run_round_trip(decks: Seq<usize>, score: usize, hand: Seq<usize>)
    ensures
        spec_parse_run(spec_enc_run(decks, score, hand)) == Some((decks, score, hand)),
{
    let b = spec_enc_run(decks, score, hand);
    let kd = spec_key_decks();
    let ks = spec_key_score();
    let kh = spec_key_hand();
    let ld = spec_enc_list(decks);
    let ls = spec_enc_usize(score as nat);
    let lh = spec_enc_list(hand);
    let l1 = ld.len() as int;
    let l2 = ls.len() as int;
    let l3 = lh.len() as int;
    lemma_enc_usize_digits(score as nat);
    assert(b.len() == 27 + l1 + l2 + l3);
    assert(b[0] == 123);
    lemma_skip_ws_at(b, 0);
    assert(b.subrange(0, 1) =~= seq![123u8]);
    assert(b.subrange(1, 9 + l1) =~= kd + seq![58u8] + ld);
    lemma_parse_enc_list_field(b, 1, kd, decks);
    assert(b[9 + l1] == 44);
    lemma_skip_ws_at(b, 9 + l1);
    assert(b.subrange(9 + l1, 10 + l1) =~= seq![44u8]);
    assert(b.subrange(10 + l1, 18 + l1 + l2) =~= ks + seq![58u8] + ls);
    assert(b[18 + l1 + l2] == 44);
    lemma_parse_enc_usize_field(b, 10 + l1, ks, score);
    lemma_skip_ws_at(b, 18 + l1 + l2);
    assert(b.subrange(18 + l1 + l2, 19 + l1 + l2) =~= seq![44u8]);
    assert(b.subrange(19 + l1 + l2, 26 + l1 + l2 + l3) =~= kh + seq![58u8] + lh);
    lemma_parse_enc_list_field(b, 19 + l1 + l2, kh, hand);
    assert(b[26 + l1 + l2 + l3] == 125);
    lemma_skip_ws_at(b, 26 + l1 + l2 + l3);
    assert(b.subrange(26 + l1 + l2 + l3, 27 + l1 + l2 + l3) =~= seq![125u8]);
    lemma_skip_ws_at(b, 27 + l1 + l2 + l3);
}

/// What a backslash escape stands for: the two quotes, the backslash,
/// the slash, and the control shorthands; anything else is rejected.
pub open spec fn spec_unescape(c: u8) -> Option<u8> {
    if c == 34 {
        Some(34u8)
    } else if c == 92 {
        Some(92u8)
    } else if c == 47 {
        Some(47u8)
    } else if c == 98 {
        Some(8u8)
    } else if c == 102 {
        Some(12u8)
    } else if c == 110 {
        Some(10u8)
    } else if c == 114 {
        Some(13u8)
    } else if c == 116 {
        Some(9u8)
    } else {
        None
    }
}

fn unescape(c: u8) -> (r: Option<u8>)
    ensures
        r == spec_unescape(c),
{
    if c == 34 {
        Some(34)
    } else if c == 92 {
        Some(92)
    } else if c == 47 {
        Some(47)
    } else if c == 98 {
        Some(8)
    } else if c == 102 {
        Some(12)
    } else if c == 110 {
        Some(10)
    } else if c == 114 {
        Some(13)
    } else if c == 116 {
        Some(9)
    } else {
        None
    }
}

/// The body of a string, read from just after the opening quote to just
/// after the closing one: plain bytes stand for themselves, escapes for
/// what [`spec_unescape`] gives, and control bytes are rejected.
pub open spec fn spec_parse_str_body(b: Seq<u8>, pos: int) -> Option<(Seq<u8>, int)>
    decreases b.len() - pos,
{
    if !(0 <= pos < b.len()) {
        None
    } else if b[pos] == 34 {
        Some((Seq::empty(), pos + 1))
    } else if b[pos] == 92 {
        if pos + 1 < b.len() {
            match spec_unescape(b[pos + 1]) {
                None => None,
                Some(c) => match spec_parse_str_body(b, pos + 2) {
                    None => None,
                    Some((s, p)) => Some((seq![c] + s, p)),
                },
            }
        } else {
            None
        }
    } else if b[pos] >= 32 {
        match spec_parse_str_body(b, pos + 1) {
            None => None,
            Some((s, p)) => Some((seq![b[pos]] + s, p)),
        }
    } else {
        None
    }
}

/// A quoted string at `pos`: its decoded bytes and the position after
/// the closing quote.
pub open spec fn spec_parse_string(b: Seq<u8>, pos: int) -> Option<(Seq<u8>, int)> {
    if 0 <= pos < b.len() && b[pos] == 34 {
        spec_parse_str_body(b, pos + 1)
    } else {
        None
    }
}

fn parse_string(b: &Vec<u8>, pos: usize) -> (r: Option<(Vec<u8>, usize)>)
    requires
        pos <= b@.len(),
    ensures
        match r {
            Some((v, q)) => spec_parse_string(b@, pos as int) == Some((v@, q as int))
                && pos < q <= b@.len(),
            None => spec_parse_string(b@, pos as int) is None,
        },
{
    if pos >= b.len() || b[pos] != 34 {
        return None;
    }
    let mut i = pos + 1;
    let mut acc: Vec<u8> = Vec::new();
    while i <= b.len()
        invariant
            pos + 1 <= i <= b@.len(),
            b@.len() <= usize::MAX,
            spec_parse_string(b@, pos as int) == spec_parse_str_body(b@, (pos + 1) as int),
            ({
                match spec_parse_str_body(b@, i as int) {
                    None => spec_parse_str_body(b@, (pos + 1) as int) is None,
                    Some((s, p)) => spec_parse_str_body(b@, (pos + 1) as int) == Some(
                        (acc@ + s, p),
                    ),
                }
            }),
        decreases b@.len() - i,
    {
        if i >= b.len() {
            return None;
        }
        let c = b[i];
        if c == 34 {
            proof {
                assert(acc@ + Seq::<u8>::empty() =~= acc@);
            }
            return Some((acc, i + 1));
        } else if c == 92 {
            if i + 1 >= b.len() {
                return None;
            }
            let d = match unescape(b[i + 1]) {
                None => {
                    return None;
                },
                Some(d) => d,
            };
            let ghost pre = acc@;
            acc.push(d);
            proof {
                let r2 = spec_parse_str_body(b@, (i + 2) as int);
                if r2 is Some {
                    let sr: Seq<u8> = (r2->0).0;
                    assert(pre + (seq![d] + sr) =~= acc@ + sr);
                }
            }
            i += 2;
        } else if c >= 32 {
            let ghost pre = acc@;
            acc.push(c);
            proof {
                let r2 = spec_parse_str_body(b@, (i + 1) as int);
                if r2 is Some {
                    let sr: Seq<u8> = (r2->0).0;
                    assert(pre + (seq![c] + sr) =~= acc@ + sr);
                }
            }
            i += 1;
        } else {
            return None;
        }
    }
    proof {
        assert(false);
    }
    None
}

/// The quoted key `"primary_cards"`.
pub open spec fn spec_key_primary() -> Seq<u8> {
    seq![
        34u8,
        112u8,
        114u8,
        105u8,
        109u8,
        97u8,
        114u8,
        121u8,
        95u8,
        99u8,
        97u8,
        114u8,
        100u8,
        115u8,
        34u8,
    ]
}

/// The quoted key `"name"`.
pub open spec fn spec_key_name() -> Seq<u8> {
    seq![34u8, 110u8, 97u8, 109u8, 101u8, 34u8]
}

/// The quoted key `"file"`.
pub open spec fn spec_key_file() -> Seq<u8> {
    seq![34u8, 102u8, 105u8, 108u8, 101u8, 34u8]
}

/// The quoted key `"back_file"`.
pub open spec fn spec_key_back_file() -> Seq<u8> {
    seq![34u8, 98u8, 97u8, 99u8, 107u8, 95u8, 102u8, 105u8, 108u8, 101u8, 34u8]
}

/// The quoted key `"secondary_cards"`.
pub open spec fn spec_key_secondary() -> Seq<u8> {
    seq![
        34u8,
        115u8,
        101u8,
        99u8,
        111u8,
        110u8,
        100u8,
        97u8,
        114u8,
        121u8,
        95u8,
        99u8,
        97u8,
        114u8,
        100u8,
        115u8,
        34u8,
    ]
}

/// A key and its quoted string value.
pub open spec fn spec_parse_string_field(b: Seq<u8>, pos: int, key: Seq<u8>) -> Option<
    (Seq<u8>, int),
> {
    let p0 = spec_skip_ws(b, pos);
    match spec_expect(b, p0, key) {
        None => None,
        Some(p1) => {
            let p2 = spec_skip_ws(b, p1);
            match spec_expect(b, p2, seq![58u8]) {
                None => None,
                Some(p3) => spec_parse_string(b, spec_skip_ws(b, p3)),
            }
        },
    }
}

fn parse_string_field(b: &Vec<u8>, pos: usize, key: &[u8]) -> (r: Option<(Vec<u8>, usize)>)
    requires
        pos <= b@.len(),
    ensures
        match r {
            Some((v, q)) => spec_parse_string_field(b@, pos as int, key@) == Some((v@, q as int))
                && pos < q <= b@.len(),
            None => spec_parse_string_field(b@, pos as int, key@) is None,
        },
{
    let p0 = skip_ws(b, pos);
    let p1 = match expect_lit(b, p0, key) {
        None => {
            return None;
        },
        Some(p) => p,
    };
    let p2 = skip_ws(b, p1);
    let colon: &[u8] = &[58];
    proof {
        assert(colon@ =~= seq![58u8]);
    }
    let p3 = match expect_lit(b, p2, colon) {
        None => {
            return None;
        },
        Some(p) => p,
    };
    parse_string(b, skip_ws(b, p3))
}

/// One catalog entry, read from its opening brace: the two card counts
/// and the three strings, under their keys in canonical order.
pub open spec fn spec_parse_entry(b: Seq<u8>, pos: int) -> Option<
    ((usize, Seq<u8>, Seq<u8>, Seq<u8>, usize), int),
> {
    match spec_expect(b, pos, seq![123u8]) {
        None => None,
        Some(p1) => match spec_parse_usize_field(b, p1, spec_key_primary()) {
            None => None,
            Some((primary, p2)) => match spec_expect(b, spec_skip_ws(b, p2), seq![44u8]) {
                None => None,
                Some(p3) => match spec_parse_string_field(b, p3, spec_key_name()) {
                    None => None,
                    Some((name, p4)) => match spec_expect(b, spec_skip_ws(b, p4), seq![44u8]) {
                        None => None,
                        Some(p5) => match spec_parse_string_field(b, p5, spec_key_file()) {
                            None => None,
                            Some((file, p6)) => match spec_expect(
                                b,
                                spec_skip_ws(b, p6),
                                seq![44u8],
                            ) {
                                None => None,
                                Some(p7) => match spec_parse_string_field(
                                    b,
                                    p7,
                                    spec_key_back_file(),
                                ) {
                                    None => None,
                                    Some((back, p8)) => match spec_expect(
                                        b,
                                        spec_skip_ws(b, p8),
                                        seq![44u8],
                                    ) {
                                        None => None,
                                        Some(p9) => match spec_parse_usize_field(
                                            b,
                                            p9,
                                            spec_key_secondary(),
                                        ) {
                                            None => None,
                                            Some((secondary, p10)) => match spec_expect(
                                                b,
                                                spec_skip_ws(b, p10),
                                                seq![125u8],
                                            ) {
                                                None => None,
                                                Some(p11) => Some(
                                                    ((primary, name, file, back, secondary), p11),
                                                ),
                                            },
                                        },
                                    },
                                },
                            },
                        },
                    },
                },
            },
        },
    }
}

fn parse_entry(b: &Vec<u8>, pos: usize) -> (r: Option<(crate::decks::DeckData, usize)>)
    requires
        pos <= b@.len(),
    ensures
        match r {
            Some((d, q)) => spec_parse_entry(b@, pos as int) == Some((d@, q as int))
                && pos < q <= b@.len(),
            None => spec_parse_entry(b@, pos as int) is None,
        },
{
    let brace_open: &[u8] = &[123];
    let brace_close: &[u8] = &[125];
    let comma: &[u8] = &[44];
    let key_primary: &[u8] = &[
        34,
        112,
        114,
        105,
        109,
        97,
        114,
        121,
        95,
        99,
        97,
        114,
        100,
        115,
        34,
    ];
    let key_name: &[u8] = &[34, 110, 97, 109, 101, 34];
    let key_file: &[u8] = &[34, 102, 105, 108, 101, 34];
    let key_back: &[u8] = &[34, 98, 97, 99, 107, 95, 102, 105, 108, 101, 34];
    let key_secondary: &[u8] = &[
        34,
        115,
        101,
        99,
        111,
        110,
        100,
        97,
        114,
        121,
        95,
        99,
        97,
        114,
        100,
        115,
        34,
    ];
    proof {
        assert(brace_open@ =~= seq![123u8]);
        assert(brace_close@ =~= seq![125u8]);
        assert(comma@ =~= seq![44u8]);
        assert(key_primary@ =~= spec_key_primary());
        assert(key_name@ =~= spec_key_name());
        assert(key_file@ =~= spec_key_file());
        assert(key_back@ =~= spec_key_back_file());
        assert(key_secondary@ =~= spec_key_secondary());
    }
    let p1 = match expect_lit(b, pos, brace_open) {
        None => {
            return None;
        },
        Some(p) => p,
    };
    let (primary, p2) = match parse_usize_field(b, p1, key_primary) {
        None => {
            return None;
        },
        Some(x) => x,
    };
    let p3 = match expect_lit(b, skip_ws(b, p2), comma) {
        None => {
            return None;
        },
        Some(p) => p,
    };
    let (name, p4) = match parse_string_field(b, p3, key_name) {
        None => {
            return None;
        },
        Some(x) => x,
    };
    let p5 = match expect_lit(b, skip_ws(b, p4), comma) {
        None => {
            return None;
        },
        Some(p) => p,
    };
    let (file, p6) = match parse_string_field(b, p5, key_file) {
        None => {
            return None;
        },
        Some(x) => x,
    };
    let p7 = match expect_lit(b, skip_ws(b, p6), comma) {
        None => {
            return None;
        },
        Some(p) => p,
    };
    let (back_file, p8) = match parse_string_field(b, p7, key_back) {
        None => {
            return None;
        },
        Some(x) => x,
    };
    let p9 = match expect_lit(b, skip_ws(b, p8), comma) {
        None => {
            return None;
        },
        Some(p) => p,
    };
    let (secondary, p10) = match parse_usize_field(b, p9, key_secondary) {
        None => {
            return None;
        },
        Some(x) => x,
    };
    let p11 = match expect_lit(b, skip_ws(b, p10), brace_close) {
        None => {
            return None;
        },
        Some(p) => p,
    };
    Some(
        (
            crate::decks::DeckData {
                primary_cards: primary,
                name,
                file,
                back_file,
                secondary_cards: secondary,
            },
            p11,
        ),
    )
}

/// One or more entries and the closing bracket, as they stand after the
/// entry list's opening bracket and any blank space.
pub open spec fn spec_parse_entries(b: Seq<u8>, pos: int) -> Option<
    (Seq<(usize, Seq<u8>, Seq<u8>, Seq<u8>, usize)>, int),
>
    decreases b.len() - pos,
{
    match spec_parse_entry(b, pos) {
        None => None,
        Some((d, p1)) => {
            let p2 = spec_skip_ws(b, p1);
            if 0 <= p2 < b.len() && b[p2] == 44 {
                let p3 = spec_skip_ws(b, p2 + 1);
                if pos < p3 <= b.len() {
                    match spec_parse_entries(b, p3) {
                        None => None,
                        Some((s, p4)) => Some((seq![d] + s, p4)),
                    }
                } else {
                    None
                }
            } else if 0 <= p2 < b.len() && b[p2] == 93 {
                Some((seq![d], p2 + 1))
            } else {
                None
            }
        },
    }
}

fn parse_entries(b: &Vec<u8>, pos: usize) -> (r: Option<(Vec<crate::decks::DeckData>, usize)>)
    requires
        pos <= b@.len(),
    ensures
        match r {
            Some((v, q)) => {
                &&& spec_parse_entries(b@, pos as int) matches Some((s, p))
                &&& p == q as int
                &&& q <= b@.len()
                &&& v@.len() == s.len()
                &&& forall|i: int| 0 <= i < s.len() ==> v@[i]@ == s[i]
            },
            None => spec_parse_entries(b@, pos as int) is None,
        },
    decreases b@.len() - pos,
{
    let (d, p1) = match parse_entry(b, pos) {
        None => {
            return None;
        },
        Some(x) => x,
    };
    let p2 = skip_ws(b, p1);
    if p2 < b.len() && b[p2] == 44 {
        let p3 = skip_ws(b, p2 + 1);
        match parse_entries(b, p3) {
            None => None,
            Some((v, p4)) => {
                let mut v2 = v;
                v2.insert(0, d);
                proof {
                    assert(v2@ =~= seq![d] + v@);
                    let rec = spec_parse_entries(b@, p3 as int);
                    let s = (rec->0).0;
                    assert forall|i: int| 0 <= i < (seq![d@] + s).len() implies v2@[i]@ == (seq![
                        d@,
                    ] + s)[i] by {
                        if i == 0 {
                            assert(v2@[0] == d);
                        } else {
                            assert(v2@[i] == v@[i - 1]);
                            assert((seq![d@] + s)[i] == s[i - 1]);
                        }
                    }
                }
                Some((v2, p4))
            },
        }
    } else if p2 < b.len() && b[p2] == 93 {
        let mut v: Vec<crate::decks::DeckData> = Vec::new();
        v.push(d);
        proof {
            assert(v@ =~= seq![d]);
            assert(v@[0] == d);
            assert(seq![d@][0] == d@);
        }
        Some((v, p2 + 1))
    } else {
        None
    }
}

/// The whole catalog document: `{`, the `"decks"` key, a bracketed list
/// of entries, `}`, and nothing but blank space after.
pub open spec fn spec_parse_catalog(b: Seq<u8>) -> Option<
    Seq<(usize, Seq<u8>, Seq<u8>, Seq<u8>, usize)>,
> {
    let p0 = spec_skip_ws(b, 0);
    match spec_expect(b, p0, seq![123u8]) {
        None => None,
        Some(p1) => {
            let p2 = spec_skip_ws(b, p1);
            match spec_expect(b, p2, spec_key_decks()) {
                None => None,
                Some(p3) => match spec_expect(b, spec_skip_ws(b, p3), seq![58u8]) {
                    None => None,
                    Some(p4) => match spec_expect(b, spec_skip_ws(b, p4), seq![91u8]) {
                        None => None,
                        Some(p5) => {
                            let p6 = spec_skip_ws(b, p5);
                            let after = if 0 <= p6 < b.len() && b[p6] == 93 {
                                Some((Seq::<(usize, Seq<u8>, Seq<u8>, Seq<u8>, usize)>::empty(), p6 + 1))
                            } else {
                                spec_parse_entries(b, p6)
                            };
                            match after {
                                None => None,
                                Some((s, p7)) => match spec_expect(
                                    b,
                                    spec_skip_ws(b, p7),
                                    seq![125u8],
                                ) {
                                    None => None,
                                    Some(p8) => {
                                        if spec_skip_ws(b, p8) == b.len() {
                                            Some(s)
                                        } else {
                                            None
                                        }
                                    },
                                },
                            }
                        },
                    },
                },
            }
        },
    }
}

/// Read the deck catalog from its document.
pub fn decode_catalog(b: &Vec<u8>) -> (r: Result<crate::decks::DeckDataWrapper, DocError>)
    ensures
        match spec_parse_catalog(b@) {
            Some(s) => match r {
                Ok(w) => w.decks@.len() == s.len() && forall|i: int|
                    0 <= i < s.len() ==> w.decks@[i]@ == s[i],
                Err(_) => false,
            },
            None => r == Err::<crate::decks::DeckDataWrapper, DocError>(DocError::Parse),
        },
{
    let brace_open: &[u8] = &[123];
    let brace_close: &[u8] = &[125];
    let bracket_open: &[u8] = &[91];
    let colon: &[u8] = &[58];
    let key_decks: &[u8] = &[34, 100, 101, 99, 107, 115, 34];
    proof {
        assert(brace_open@ =~= seq![123u8]);
        assert(brace_close@ =~= seq![125u8]);
        assert(bracket_open@ =~= seq![91u8]);
        assert(colon@ =~= seq![58u8]);
        assert(key_decks@ =~= spec_key_decks());
    }
    let p0 = skip_ws(b, 0);
    let p1 = match expect_lit(b, p0, brace_open) {
        None => {
            return Err(DocError::Parse);
        },
        Some(p) => p,
    };
    let p2 = skip_ws(b, p1);
    let p3 = match expect_lit(b, p2, key_decks) {
        None => {
            return Err(DocError::Parse);
        },
        Some(p) => p,
    };
    let p4 = match expect_lit(b, skip_ws(b, p3), colon) {
        None => {
            return Err(DocError::Parse);
        },
        Some(p) => p,
    };
    let p5 = match expect_lit(b, skip_ws(b, p4), bracket_open) {
        None => {
            return Err(DocError::Parse);
        },
        Some(p) => p,
    };
    let p6 = skip_ws(b, p5);
    let (decks, p7) = if p6 < b.len() && b[p6] == 93 {
        (Vec::new(), p6 + 1)
    } else {
        match parse_entries(b, p6) {
            None => {
                return Err(DocError::Parse);
            },
            Some(x) => x,
        }
    };
    let p8 = match expect_lit(b, skip_ws(b, p7), brace_close) {
        None => {
            return Err(DocError::Parse);
        },
        Some(p) => p,
    };
    if skip_ws(b, p8) != b.len() {
        return Err(DocError::Parse);
    }
    Ok(crate::decks::DeckDataWrapper { decks })
}

} // verus!
