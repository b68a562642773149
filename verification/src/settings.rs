//! The few settings the game logic reads: the board orientation and a
//! button color chosen by name. The settings file itself is read by the
//! caller, which hands the plain values over.

use vstd::prelude::*;

verus! {

/// The colors a settings file may name.
#[derive(Clone, Copy, Debug, PartialEq, Eq, Structural)]
pub enum NamedColor {
    Red,
    Orange,
    Yellow,
    Green,
    Blue,
    Purple,
    Pink,
}

/// A color name that the palette does not know.
#[derive(Clone, Copy, Debug, PartialEq, Eq, Structural)]
pub struct UnknownColor;

/// Which palette entry an upper-case color name picks, if any.
pub open spec fn spec_get_color(name: Seq<u8>) -> Option<NamedColor> {
    if name == seq![82u8, 69u8, 68u8] {
        Some(NamedColor::Red)
    } else if name == seq![79u8, 82u8, 65u8, 78u8, 71u8, 69u8] {
        Some(NamedColor::Orange)
    } else if name == seq![89u8, 69u8, 76u8, 76u8, 79u8, 87u8] {
        Some(NamedColor::Yellow)
    } else if name == seq![71u8, 82u8, 69u8, 69u8, 78u8] {
        Some(NamedColor::Green)
    } else if name == seq![66u8, 76u8, 85u8, 69u8] {
        Some(NamedColor::Blue)
    } else if name == seq![80u8, 85u8, 82u8, 80u8, 76u8, 69u8] {
        Some(NamedColor::Purple)
    } else if name == seq![80u8, 73u8, 78u8, 75u8] {
        Some(NamedColor::Pink)
    } else {
        None
    }
}

/// Whether two byte strings are equal.
fn bytes_eq(a: &[u8], b: &[u8]) -> (r: bool)
    ensures
        r == (a@ == b@),
{
    if a.len() != b.len() {
        proof {
            assert(a@.len() != b@.len());
        }
        return false;
    }
    let mut i: usize = 0;
    while i < a.len()
        invariant
            a@.len() == b@.len(),
            i <= a@.len(),
            forall|j: int| 0 <= j < i ==> a@[j] == b@[j],
        decreases a@.len() - i,
    {
        if a[i] != b[i] {
            return false;
        }
        i += 1;
    }
    proof {
        assert(a@ =~= b@);
    }
    true
}

/// Resolve an upper-case color name, given as bytes, to its palette
/// entry; an unknown name is an error.
pub fn get_color(color: &[u8]) -> (r: Result<NamedColor, UnknownColor>)
    ensures
        match spec_get_color(color@) {
            Some(c) => r == Ok::<NamedColor, UnknownColor>(c),
            None => r == Err::<NamedColor, UnknownColor>(UnknownColor),
        },
{
    let red: &[u8] = &[82, 69, 68];
    let orange: &[u8] = &[79, 82, 65, 78, 71, 69];
    let yellow: &[u8] = &[89, 69, 76, 76, 79, 87];
    let green: &[u8] = &[71, 82, 69, 69, 78];
    let blue: &[u8] = &[66, 76, 85, 69];
    let purple: &[u8] = &[80, 85, 82, 80, 76, 69];
    let pink: &[u8] = &[80, 73, 78, 75];
    proof {
        assert(red@ =~= seq![82u8, 69u8, 68u8]);
        assert(orange@ =~= seq![79u8, 82u8, 65u8, 78u8, 71u8, 69u8]);
        assert(yellow@ =~= seq![89u8, 69u8, 76u8, 76u8, 79u8, 87u8]);
        assert(green@ =~= seq![71u8, 82u8, 69u8, 69u8, 78u8]);
        assert(blue@ =~= seq![66u8, 76u8, 85u8, 69u8]);
        assert(purple@ =~= seq![80u8, 85u8, 82u8, 80u8, 76u8, 69u8]);
        assert(pink@ =~= seq![80u8, 73u8, 78u8, 75u8]);
    }
    if bytes_eq(color, red) {
        Ok(NamedColor::Red)
    } else if bytes_eq(color, orange) {
        Ok(NamedColor::Orange)
    } else if bytes_eq(color, yellow) {
        Ok(NamedColor::Yellow)
    } else if bytes_eq(color, green) {
        Ok(NamedColor::Green)
    } else if bytes_eq(color, blue) {
        Ok(NamedColor::Blue)
    } else if bytes_eq(color, purple) {
        Ok(NamedColor::Purple)
    } else if bytes_eq(color, pink) {
        Ok(NamedColor::Pink)
    } else {
        Err(UnknownColor)
    }
}

/// The board orientation the settings file chose.
#[derive(Clone, Copy, Debug, PartialEq, Eq, Structural)]
pub struct LayoutSettings {
    pub vertical: bool,
}

impl LayoutSettings {
    /// The orientation used until the settings file says otherwise.
    pub fn new() -> (r: Self)
        ensures
            r.vertical == false,
    {
        LayoutSettings { vertical: false }
    }
}

} // verus!
