//! The pitch resolver: a staff position `a`-`m` (either case) under one of
//! the eight recognized clefs names an entry of a fixed 22-step pitch
//! ladder. Each clef fixes a starting offset into the ladder; the absolute
//! pitch of a note is the ladder entry at `offset(clef) + (position - 'a')`.

use crate::model::Note;
use crate::text::str_eq;
use vstd::prelude::*;

verus! {

/// The eight recognized clef identifiers.
pub open spec fn is_valid_clef(clef: Seq<char>) -> bool {
    ||| clef == "c1"@
    ||| clef == "c2"@
    ||| clef == "c3"@
    ||| clef == "c4"@
    ||| clef == "f1"@
    ||| clef == "f2"@
    ||| clef == "f3"@
    ||| clef == "f4"@
}

/// The ladder offset of each clef: C-clefs step down two ladder entries per
/// staff line, F-clefs sit a fifth below the matching C-clef.
pub open spec fn clef_offset(clef: Seq<char>) -> int {
    if clef == "c1"@ {
        6
    } else if clef == "c2"@ {
        4
    } else if clef == "c3"@ {
        2
    } else if clef == "c4"@ {
        0
    } else if clef == "f1"@ {
        9
    } else if clef == "f2"@ {
        7
    } else if clef == "f3"@ {
        5
    } else {
        3
    }
}

/// A staff position character: `a` to `m`, case-insensitive.
pub open spec fn is_position_char(c: char) -> bool {
    ('a' <= c && c <= 'm') || ('A' <= c && c <= 'M')
}

/// Staff position test on one character.
pub fn is_position(c: char) -> (r: bool)
    ensures
        r == is_position_char(c),
{
    ('a' <= c && c <= 'm') || ('A' <= c && c <= 'M')
}

/// Steps above the lowest staff position, ignoring case.
pub open spec fn position_index(c: char) -> int {
    if 'a' <= c && c <= 'm' {
        c as u32 - 'a' as u32
    } else if 'A' <= c && c <= 'M' {
        c as u32 - 'A' as u32
    } else {
        0
    }
}

/// The fixed 22-entry pitch ladder, in Lilypond absolute-pitch names,
/// spanning roughly two and a half octaves around middle C.
pub open spec fn pitch_ladder(i: int) -> Seq<char> {
    if i == 0 {
        "a,"@
    } else if i == 1 {
        "b,"@
    } else if i == 2 {
        "c"@
    } else if i == 3 {
        "d"@
    } else if i == 4 {
        "e"@
    } else if i == 5 {
        "f"@
    } else if i == 6 {
        "g"@
    } else if i == 7 {
        "a"@
    } else if i == 8 {
        "b"@
    } else if i == 9 {
        "c'"@
    } else if i == 10 {
        "d'"@
    } else if i == 11 {
        "e'"@
    } else if i == 12 {
        "f'"@
    } else if i == 13 {
        "g'"@
    } else if i == 14 {
        "a'"@
    } else if i == 15 {
        "b'"@
    } else if i == 16 {
        "c''"@
    } else if i == 17 {
        "d''"@
    } else if i == 18 {
        "e''"@
    } else if i == 19 {
        "f''"@
    } else if i == 20 {
        "g''"@
    } else if i == 21 {
        "a'''"@
    } else {
        Seq::<char>::empty()
    }
}

/// The pitch ladder entry at `i`.
fn ladder_name(i: usize) -> (r: &'static str)
    requires
        i < 22,
    ensures
        r@ == pitch_ladder(i as int),
{
    match i {
        0 => "a,",
        1 => "b,",
        2 => "c",
        3 => "d",
        4 => "e",
        5 => "f",
        6 => "g",
        7 => "a",
        8 => "b",
        9 => "c'",
        10 => "d'",
        11 => "e'",
        12 => "f'",
        13 => "g'",
        14 => "a'",
        15 => "b'",
        16 => "c''",
        17 => "d''",
        18 => "e''",
        19 => "f''",
        20 => "g''",
        21 => "a'''",
        _ => vstd::pervasive::unreached(),
    }
}

/// The absolute pitch of staff position `position` under clef `clef`: the
/// ladder entry at the clef's offset plus the position's step count.
pub open spec fn spec_absolute_pitch(clef: Seq<char>, position: char) -> Seq<char> {
    pitch_ladder(clef_offset(clef) + position_index(position))
}

impl Note {
    /// Get the absolute pitch of this note in modern (Lilypond) notation,
    /// between a, and a'''. Assumes that the clef indicates middle C or the
    /// F above middle C.
    pub fn absolute_pitch(&self) -> (r: &'static str)
        requires
            is_valid_clef(self@.current_clef),
            is_position_char(self@.position),
        ensures
            r@ == spec_absolute_pitch(self@.current_clef, self@.position),
    {
        let clef = self.current_clef.as_str();
        let offset: usize = if str_eq(clef, "c1") {
            6
        } else if str_eq(clef, "c2") {
            4
        } else if str_eq(clef, "c3") {
            2
        } else if str_eq(clef, "c4") {
            0
        } else if str_eq(clef, "f1") {
            9
        } else if str_eq(clef, "f2") {
            7
        } else if str_eq(clef, "f3") {
            5
        } else if str_eq(clef, "f4") {
            3
        } else {
            vstd::pervasive::unreached()
        };
        let u = self.position as u32;
        let step: usize = if u >= 'a' as u32 {
            (u - 'a' as u32) as usize
        } else {
            (u - 'A' as u32) as usize
        };
        ladder_name(offset + step)
    }
}

/// Clef-validity test on a clef identifier.
pub fn is_valid_clef_str(clef: &str) -> (r: bool)
    ensures
        r == is_valid_clef(clef@),
{
    str_eq(clef, "c1") || str_eq(clef, "c2") || str_eq(clef, "c3") || str_eq(clef, "c4") || str_eq(
        clef,
        "f1",
    ) || str_eq(clef, "f2") || str_eq(clef, "f3") || str_eq(clef, "f4")
}

} // verus!
