//! The gabc grammar and its parser.
//!
//! A document is a header of `key:value;` attribute lines closed by a `%%`
//! marker line, then a body of syllables. A syllable is a span of text
//! followed by a parenthesized music span holding clefs, notes, barlines
//! and spacers. The grammar is defined here as spec functions over
//! `Seq<char>` — each production yields the value it builds and the index
//! just past what it consumed — and the executable parser is verified to
//! return exactly what the grammar derives. Parsing threads one piece of
//! ambient state, the currently active clef, which each clef production
//! replaces and which is stamped onto every note as it is built.

use crate::model::attrs_view;
use crate::model::music_view;
use crate::model::syllables_view;
use crate::model::GabcFile;
use crate::model::GabcFileView;
use crate::model::Note;
use crate::model::NoteElem;
use crate::model::NoteElemView;
use crate::model::NoteView;
use crate::model::Syllable;
use crate::model::SyllableView;
use crate::pitch::is_position_char;
use crate::text::is_space;
use crate::text::is_space_char;
use crate::text::range_to_string;
use crate::text::str_chars;
use vstd::prelude::*;
use vstd::string::StringExecFns;

verus! {

/// The clef stamped onto notes before any clef production has been seen.
/// Pitch resolution rejects it, so a body must open with a clef before its
/// first note if its pitches are to be resolved.
pub open spec fn no_clef_set() -> Seq<char> {
    "no clef set"@
}

/// Note-suffix characters: shape indicators and rhythmic signs. The
/// letters `n`-`z` lie outside the staff-position range `a`-`m`, so a
/// suffix letter can never be read as a second position.
pub open spec fn is_suffix_char(c: char) -> bool {
    ||| ('n' <= c && c <= 'z')
    ||| ('N' <= c && c <= 'Z')
    ||| c == '.'
    ||| c == '~'
    ||| c == '_'
    ||| c == '<'
    ||| c == '>'
}

/// A clef staff-line digit.
pub open spec fn is_clef_digit(c: char) -> bool {
    '1' <= c && c <= '4'
}

/// Barline separator characters.
pub open spec fn is_barline_char(c: char) -> bool {
    c == ':' || c == ';' || c == '\'' || c == ','
}

/// Syllable-text characters: anything but the parentheses that bracket a
/// music span.
pub open spec fn is_text_char(c: char) -> bool {
    c != '(' && c != ')'
}

/// Attribute-key characters: anything up to the `:` separator, within one
/// header line.
pub open spec fn is_key_char(c: char) -> bool {
    c != ':' && c != ';' && c != '\n'
}

/// Attribute-value characters: anything up to the `;` terminator, within
/// one header line.
pub open spec fn is_value_char(c: char) -> bool {
    c != ';' && c != '\n'
}

/// The syllable-text character class, as a value.
pub open spec fn text_pred() -> spec_fn(char) -> bool {
    |c: char| is_text_char(c)
}

/// The note-suffix character class, as a value.
pub open spec fn suffix_pred() -> spec_fn(char) -> bool {
    |c: char| is_suffix_char(c)
}

/// The attribute-key character class, as a value.
pub open spec fn key_pred() -> spec_fn(char) -> bool {
    |c: char| is_key_char(c)
}

/// The attribute-value character class, as a value.
pub open spec fn value_pred() -> spec_fn(char) -> bool {
    |c: char| is_value_char(c)
}

/// Length of the maximal run of characters satisfying `p` from `i` on.
pub open spec fn run_len(s: Seq<char>, i: int, p: spec_fn(char) -> bool) -> nat
    decreases s.len() - i,
{
    if 0 <= i && i < s.len() && p(s[i]) {
        1 + run_len(s, i + 1, p)
    } else {
        0
    }
}

/// The maximal run from `i` stays inside `s`, consists of characters
/// satisfying `p`, and stops at the end or at a character refusing `p`.
pub proof fn lemma_run_len_spans(s: Seq<char>, i: int, p: spec_fn(char) -> bool)
    requires
        0 <= i <= s.len(),
    ensures
        i + run_len(s, i, p) <= s.len(),
        forall|k: int| i <= k < i + run_len(s, i, p) ==> p(#[trigger] s[k]),
        i + run_len(s, i, p) == s.len() || !p(s[i + run_len(s, i, p)]),
    decreases s.len() - i,
{
    if i < s.len() && p(s[i]) {
        lemma_run_len_spans(s, i + 1, p);
    }
}

/// Any stretch `[i, j)` of characters satisfying `p` that ends at the end
/// of `s` or at a character refusing `p` is the maximal run from `i`.
pub proof fn lemma_run_len_is(s: Seq<char>, i: int, p: spec_fn(char) -> bool, j: int)
    requires
        0 <= i <= j <= s.len(),
        forall|k: int| i <= k < j ==> p(#[trigger] s[k]),
        j == s.len() || !p(s[j]),
    ensures
        i + run_len(s, i, p) == j,
    decreases j - i,
{
    if i < j {
        assert(p(s[i]));
        lemma_run_len_is(s, i + 1, p, j);
    }
}

/// A scanned note token: its parts and the index just past it.
#[verifier::ext_equal]
pub struct NoteTok {
    pub prefix: Seq<char>,
    pub position: char,
    pub suffix: Seq<char>,
    pub end: int,
}

/// The note production at `i`: an optional `-` prefix, one mandatory
/// staff-position character, then a maximal (possibly empty) run of
/// suffix characters.
pub open spec fn note_at(s: Seq<char>, i: int) -> Option<NoteTok> {
    if 0 <= i < s.len() {
        let p = if s[i] == '-' {
            i + 1
        } else {
            i
        };
        if p < s.len() && is_position_char(s[p]) {
            let e = p + 1 + run_len(s, p + 1, suffix_pred());
            Some(
                NoteTok {
                    prefix: s.subrange(i, p),
                    position: s[p],
                    suffix: s.subrange(p + 1, e),
                    end: e,
                },
            )
        } else {
            None
        }
    } else {
        None
    }
}

/// A note token lies strictly inside `s`.
pub proof fn lemma_note_at_bounds(s: Seq<char>, i: int)
    ensures
        match note_at(s, i) {
            Some(t) => i < t.end <= s.len(),
            None => true,
        },
{
    if note_at(s, i) is Some {
        let p = if s[i] == '-' {
            i + 1
        } else {
            i
        };
        lemma_run_len_spans(s, p + 1, suffix_pred());
    }
}

/// The clef production at `i`: `c` or `f` and a staff-line digit. Its
/// token is the two characters.
pub open spec fn clef_at(s: Seq<char>, i: int) -> bool {
    0 <= i && i + 2 <= s.len() && (s[i] == 'c' || s[i] == 'f') && is_clef_digit(s[i + 1])
}

/// Whether a barline production starts at `i`.
pub open spec fn barline_at(s: Seq<char>, i: int) -> bool {
    0 <= i < s.len() && is_barline_char(s[i])
}

/// The index past the barline at `i`: the double colon is one token, any
/// other separator stands alone.
pub open spec fn barline_end(s: Seq<char>, i: int) -> int {
    if i + 2 <= s.len() && s[i] == ':' && s[i + 1] == ':' {
        i + 2
    } else {
        i + 1
    }
}

/// Whether a spacer production starts at `i`.
pub open spec fn spacer_at(s: Seq<char>, i: int) -> bool {
    0 <= i < s.len() && s[i] == '/'
}

/// One music production at `i`: the element it contributes (none for a
/// clef), the clef in force after it, and the index just past it. A clef
/// is tried before a note, so `c` or `f` followed by a staff-line digit
/// is always a clef change and never a note.
pub open spec fn music_item_at(s: Seq<char>, i: int, clef: Seq<char>) -> Option<
    (Option<NoteElemView>, Seq<char>, int),
> {
    if clef_at(s, i) {
        Some((None, s.subrange(i, i + 2), i + 2))
    } else {
        match note_at(s, i) {
            Some(t) => Some(
                (
                    Some(
                        NoteElemView::Note(
                            NoteView {
                                prefix: t.prefix,
                                position: t.position,
                                suffix: t.suffix,
                                current_clef: clef,
                            },
                        ),
                    ),
                    clef,
                    t.end,
                ),
            ),
            None => if barline_at(s, i) {
                Some((Some(NoteElemView::Barline(s.subrange(i, barline_end(s, i)))), clef, barline_end(s, i)))
            } else if spacer_at(s, i) {
                Some((Some(NoteElemView::Spacer(s.subrange(i, i + 1))), clef, i + 1))
            } else {
                None
            },
        }
    }
}

/// A music item lies strictly inside `s`.
pub proof fn lemma_music_item_at_bounds(s: Seq<char>, i: int, clef: Seq<char>)
    ensures
        match music_item_at(s, i, clef) {
            Some(it) => i < it.2 <= s.len(),
            None => true,
        },
{
    lemma_note_at_bounds(s, i);
}

/// The music productions from `i` up to and including the closing
/// parenthesis: the elements in order, the clef in force after them, and
/// the index past `)`.
pub open spec fn music_at(s: Seq<char>, i: int, clef: Seq<char>) -> Option<
    (Seq<NoteElemView>, Seq<char>, int),
>
    decreases s.len() - i,
    via music_at_dec
{
    if 0 <= i < s.len() {
        if s[i] == ')' {
            Some((Seq::empty(), clef, i + 1))
        } else {
            match music_item_at(s, i, clef) {
                Some(it) => match music_at(s, it.2, it.1) {
                    Some(m) => Some(
                        (
                            match it.0 {
                                Some(e) => seq![e] + m.0,
                                None => m.0,
                            },
                            m.1,
                            m.2,
                        ),
                    ),
                    None => None,
                },
                None => None,
            }
        }
    } else {
        None
    }
}

#[via_fn]
proof fn music_at_dec(s: Seq<char>, i: int, clef: Seq<char>) {
    lemma_music_item_at_bounds(s, i, clef);
}

/// The elements of a music span end past its opening, within `s`.
pub proof fn lemma_music_at_bounds(s: Seq<char>, i: int, clef: Seq<char>)
    ensures
        match music_at(s, i, clef) {
            Some(m) => i < m.2 <= s.len(),
            None => true,
        },
    decreases s.len() - i,
{
    if 0 <= i < s.len() && s[i] != ')' {
        match music_item_at(s, i, clef) {
            Some(it) => {
                lemma_music_item_at_bounds(s, i, clef);
                lemma_music_at_bounds(s, it.2, it.1);
            },
            None => {},
        }
    }
}

/// The syllable production at `i`: a maximal (possibly empty) run of text
/// characters, then a parenthesized music span. Yields the syllable, the
/// clef in force after it, and the index past `)`.
pub open spec fn syllable_at(s: Seq<char>, i: int, clef: Seq<char>) -> Option<
    (SyllableView, Seq<char>, int),
> {
    if 0 <= i <= s.len() {
        let t = i + run_len(s, i, text_pred());
        if t < s.len() && s[t] == '(' {
            match music_at(s, t + 1, clef) {
                Some(m) => Some((SyllableView { text: s.subrange(i, t), music: m.0 }, m.1, m.2)),
                None => None,
            }
        } else {
            None
        }
    } else {
        None
    }
}

/// A syllable ends past its opening, within `s`.
pub proof fn lemma_syllable_at_bounds(s: Seq<char>, i: int, clef: Seq<char>)
    ensures
        match syllable_at(s, i, clef) {
            Some(m) => i < m.2 <= s.len(),
            None => true,
        },
{
    if 0 <= i <= s.len() {
        lemma_run_len_spans(s, i, text_pred());
        let t = i + run_len(s, i, text_pred());
        if t < s.len() && s[t] == '(' {
            lemma_music_at_bounds(s, t + 1, clef);
        }
    }
}

/// Whether everything from `i` on is white space.
pub open spec fn all_space_from(s: Seq<char>, i: int) -> bool {
    forall|k: int| i <= k < s.len() ==> is_space_char(#[trigger] s[k])
}

/// The syllables from `i` to the end of the document, threading the
/// ambient clef. Trailing white space after the last syllable is allowed
/// and contributes nothing.
pub open spec fn body_at(s: Seq<char>, i: int, clef: Seq<char>) -> Option<Seq<SyllableView>>
    decreases s.len() - i,
    via body_at_dec
{
    if 0 <= i <= s.len() {
        if i == s.len() {
            Some(Seq::empty())
        } else {
            match syllable_at(s, i, clef) {
                Some(m) => match body_at(s, m.2, m.1) {
                    Some(rest) => Some(seq![m.0] + rest),
                    None => None,
                },
                None => if all_space_from(s, i) {
                    Some(Seq::empty())
                } else {
                    None
                },
            }
        }
    } else {
        None
    }
}

#[via_fn]
proof fn body_at_dec(s: Seq<char>, i: int, clef: Seq<char>) {
    lemma_syllable_at_bounds(s, i, clef);
}

/// The `%%` marker at `i`, taking its following line break with it when
/// one is present: the index just past it.
pub open spec fn marker_at(s: Seq<char>, i: int) -> Option<int> {
    if 0 <= i && i + 2 <= s.len() && s[i] == '%' && s[i + 1] == '%' {
        if i + 2 < s.len() && s[i + 2] == '\n' {
            Some(i + 3)
        } else {
            Some(i + 2)
        }
    } else {
        None
    }
}

/// The attribute production at `i`: a nonempty key, `:`, a value, `;`,
/// and the line break that closes the header line. Key and value are
/// taken as they stand, with no trimming.
pub open spec fn attribute_at(s: Seq<char>, i: int) -> Option<((Seq<char>, Seq<char>), int)> {
    if 0 <= i <= s.len() {
        let k = i + run_len(s, i, key_pred());
        if k > i && k < s.len() && s[k] == ':' {
            let w = k + 1 + run_len(s, k + 1, value_pred());
            if w + 1 < s.len() && s[w] == ';' && s[w + 1] == '\n' {
                Some(((s.subrange(i, k), s.subrange(k + 1, w)), w + 2))
            } else {
                None
            }
        } else {
            None
        }
    } else {
        None
    }
}

/// An attribute ends past its opening, within `s`.
pub proof fn lemma_attribute_at_bounds(s: Seq<char>, i: int)
    ensures
        match attribute_at(s, i) {
            Some(m) => i < m.1 <= s.len(),
            None => true,
        },
{
    if 0 <= i <= s.len() {
        lemma_run_len_spans(s, i, key_pred());
        let k = i + run_len(s, i, key_pred());
        if k > i && k < s.len() && s[k] == ':' {
            lemma_run_len_spans(s, k + 1, value_pred());
        }
    }
}

/// The header from `i`: attribute lines up to the `%%` marker. Yields the
/// key/value pairs in order and the index past the marker.
pub open spec fn header_at(s: Seq<char>, i: int) -> Option<(Seq<(Seq<char>, Seq<char>)>, int)>
    decreases s.len() - i,
    via header_at_dec
{
    if 0 <= i <= s.len() {
        match marker_at(s, i) {
            Some(j) => Some((Seq::empty(), j)),
            None => match attribute_at(s, i) {
                Some(a) => match header_at(s, a.1) {
                    Some(h) => Some((seq![a.0] + h.0, h.1)),
                    None => None,
                },
                None => None,
            },
        }
    } else {
        None
    }
}

#[via_fn]
proof fn header_at_dec(s: Seq<char>, i: int) {
    lemma_attribute_at_bounds(s, i);
}

/// Suffix-character test.
fn is_suffix(c: char) -> (r: bool)
    ensures
        r == is_suffix_char(c),
{
    ('n' <= c && c <= 'z') || ('N' <= c && c <= 'Z') || c == '.' || c == '~' || c == '_' || c == '<'
        || c == '>'
}

/// End of the maximal run of syllable-text characters from `i`.
fn text_run_end(v: &Vec<char>, i: usize) -> (j: usize)
    requires
        i <= v@.len(),
    ensures
        j == i + run_len(v@, i as int, text_pred()),
        i <= j <= v@.len(),
{
    let mut j: usize = i;
    while j < v.len() && v[j] != '(' && v[j] != ')'
        invariant
            i <= j <= v@.len(),
            forall|k: int| i <= k < j ==> is_text_char(#[trigger] v@[k]),
        decreases v@.len() - j,
    {
        j = j + 1;
    }
    proof {
        lemma_run_len_is(v@, i as int, text_pred(), j as int);
    }
    j
}

/// End of the maximal run of note-suffix characters from `i`.
fn suffix_run_end(v: &Vec<char>, i: usize) -> (j: usize)
    requires
        i <= v@.len(),
    ensures
        j == i + run_len(v@, i as int, suffix_pred()),
        i <= j <= v@.len(),
{
    let mut j: usize = i;
    while j < v.len() && is_suffix(v[j])
        invariant
            i <= j <= v@.len(),
            forall|k: int| i <= k < j ==> is_suffix_char(#[trigger] v@[k]),
        decreases v@.len() - j,
    {
        j = j + 1;
    }
    proof {
        lemma_run_len_is(v@, i as int, suffix_pred(), j as int);
    }
    j
}

/// End of the maximal run of attribute-key characters from `i`.
fn key_run_end(v: &Vec<char>, i: usize) -> (j: usize)
    requires
        i <= v@.len(),
    ensures
        j == i + run_len(v@, i as int, key_pred()),
        i <= j <= v@.len(),
{
    let mut j: usize = i;
    while j < v.len() && v[j] != ':' && v[j] != ';' && v[j] != '\n'
        invariant
            i <= j <= v@.len(),
            forall|k: int| i <= k < j ==> is_key_char(#[trigger] v@[k]),
        decreases v@.len() - j,
    {
        j = j + 1;
    }
    proof {
        lemma_run_len_is(v@, i as int, key_pred(), j as int);
    }
    j
}

/// End of the maximal run of attribute-value characters from `i`.
fn value_run_end(v: &Vec<char>, i: usize) -> (j: usize)
    requires
        i <= v@.len(),
    ensures
        j == i + run_len(v@, i as int, value_pred()),
        i <= j <= v@.len(),
{
    let mut j: usize = i;
    while j < v.len() && v[j] != ';' && v[j] != '\n'
        invariant
            i <= j <= v@.len(),
            forall|k: int| i <= k < j ==> is_value_char(#[trigger] v@[k]),
        decreases v@.len() - j,
    {
        j = j + 1;
    }
    proof {
        lemma_run_len_is(v@, i as int, value_pred(), j as int);
    }
    j
}

/// Scan the note production at `i`: on success, the index of its position
/// character and the index just past its suffix.
fn scan_note(v: &Vec<char>, i: usize) -> (r: Option<(usize, usize)>)
    requires
        i <= v@.len(),
    ensures
        match r {
            Some(pe) => {
                &&& note_at(v@, i as int) == Some(
                    NoteTok {
                        prefix: v@.subrange(i as int, pe.0 as int),
                        position: v@[pe.0 as int],
                        suffix: v@.subrange(pe.0 as int + 1, pe.1 as int),
                        end: pe.1 as int,
                    },
                )
                &&& i <= pe.0 < pe.1 <= v@.len()
            },
            None => note_at(v@, i as int) is None,
        },
{
    if i >= v.len() {
        return None;
    }
    let p: usize = if v[i] == '-' {
        i + 1
    } else {
        i
    };
    if p < v.len() && crate::pitch::is_position(v[p]) {
        let e = suffix_run_end(v, p + 1);
        Some((p, e))
    } else {
        None
    }
}

/// Scan a music span from `i`, just past its opening parenthesis: the
/// elements in order, the clef in force after them, and the index past
/// the closing parenthesis.
fn scan_music(v: &Vec<char>, i: usize, clef: &String) -> (r: Option<(Vec<NoteElem>, String, usize)>)
    requires
        i <= v@.len(),
    ensures
        match r {
            Some(m) => {
                &&& music_at(v@, i as int, clef@) == Some((music_view(m.0@), m.1@, m.2 as int))
                &&& i < m.2 <= v@.len()
            },
            None => music_at(v@, i as int, clef@) is None,
        },
{
    let mut elems: Vec<NoteElem> = Vec::new();
    let mut cur: usize = i;
    let mut cclef: String = clef.clone();
    proof {
        match music_at(v@, i as int, clef@) {
            Some(m) => {
                assert(music_view(elems@) + m.0 =~= m.0);
            },
            None => {},
        }
    }
    loop
        invariant
            i <= cur <= v@.len(),
            (match music_at(v@, cur as int, cclef@) {
                Some(m) => music_at(v@, i as int, clef@) == Some(
                    (music_view(elems@) + m.0, m.1, m.2),
                ),
                None => music_at(v@, i as int, clef@) is None,
            }),
        decreases v@.len() - cur,
    {
        if cur >= v.len() {
            return None;
        }
        let c = v[cur];
        if c == ')' {
            proof {
                assert(music_view(elems@) + Seq::<NoteElemView>::empty() =~= music_view(elems@));
            }
            return Some((elems, cclef, cur + 1));
        }
        if (c == 'c' || c == 'f') && cur + 1 < v.len() && '1' <= v[cur + 1] && v[cur + 1] <= '4' {
            cclef = range_to_string(v, cur, cur + 2);
            cur = cur + 2;
            continue;
        }
        match scan_note(v, cur) {
            Some((p, e)) => {
                let prefix = range_to_string(v, cur, p);
                let suffix = range_to_string(v, p + 1, e);
                let note = Note { prefix, position: v[p], suffix, current_clef: cclef.clone() };
                let ne = NoteElem::Note(note);
                let ghost oe = elems@;
                let ghost nev = ne@;
                elems.push(ne);
                proof {
                    assert(music_view(elems@) =~= oe.map_values(|x: NoteElem| x@).push(nev)) by {
                        assert(music_view(elems@) =~= music_view(oe).push(nev));
                        assert(music_view(oe) =~= oe.map_values(|x: NoteElem| x@));
                    }
                    assert(music_view(elems@) =~= music_view(oe) + seq![nev]);
                    match music_at(v@, e as int, cclef@) {
                        Some(m2) => {
                            assert((music_view(oe) + seq![nev]) + m2.0 =~= music_view(oe) + (
                            seq![nev] + m2.0));
                        },
                        None => {},
                    }
                }
                cur = e;
                continue;
            },
            None => {},
        }
        if c == ':' || c == ';' || c == '\'' || c == ',' {
            let e: usize = if cur + 1 < v.len() && c == ':' && v[cur + 1] == ':' {
                cur + 2
            } else {
                cur + 1
            };
            let ne = NoteElem::Barline(range_to_string(v, cur, e));
            let ghost oe = elems@;
            let ghost nev = ne@;
            elems.push(ne);
            proof {
                assert(music_view(elems@) =~= music_view(oe) + seq![nev]);
                match music_at(v@, e as int, cclef@) {
                    Some(m2) => {
                        assert((music_view(oe) + seq![nev]) + m2.0 =~= music_view(oe) + (seq![nev]
                            + m2.0));
                    },
                    None => {},
                }
            }
            cur = e;
            continue;
        }
        if c == '/' {
            let ne = NoteElem::Spacer(range_to_string(v, cur, cur + 1));
            let ghost oe = elems@;
            let ghost nev = ne@;
            elems.push(ne);
            proof {
                assert(music_view(elems@) =~= music_view(oe) + seq![nev]);
                match music_at(v@, cur + 1, cclef@) {
                    Some(m2) => {
                        assert((music_view(oe) + seq![nev]) + m2.0 =~= music_view(oe) + (seq![nev]
                            + m2.0));
                    },
                    None => {},
                }
            }
            cur = cur + 1;
            continue;
        }
        return None;
    }
}

/// Scan the syllable production at `i`: the syllable, the clef in force
/// after it, and the index past its closing parenthesis.
fn scan_syllable(v: &Vec<char>, i: usize, clef: &String) -> (r: Option<(Syllable, String, usize)>)
    requires
        i <= v@.len(),
    ensures
        match r {
            Some(m) => {
                &&& syllable_at(v@, i as int, clef@) == Some((m.0@, m.1@, m.2 as int))
                &&& i < m.2 <= v@.len()
            },
            None => syllable_at(v@, i as int, clef@) is None,
        },
{
    let t = text_run_end(v, i);
    if t < v.len() && v[t] == '(' {
        match scan_music(v, t + 1, clef) {
            Some((elems, clef2, end)) => {
                let text = range_to_string(v, i, t);
                let syl = Syllable { text, music: elems };
                Some((syl, clef2, end))
            },
            None => None,
        }
    } else {
        None
    }
}

/// Scan the attribute production at `i`: its key/value pair and the
/// index past the line break that closes the header line.
fn scan_attribute(v: &Vec<char>, i: usize) -> (r: Option<((String, String), usize)>)
    requires
        i <= v@.len(),
    ensures
        match r {
            Some(m) => {
                &&& attribute_at(v@, i as int) == Some((((m.0).0@, (m.0).1@), m.1 as int))
                &&& i < m.1 <= v@.len()
            },
            None => attribute_at(v@, i as int) is None,
        },
{
    let k = key_run_end(v, i);
    if k > i && k < v.len() && v[k] == ':' {
        let w = value_run_end(v, k + 1);
        if v.len() - w >= 2 && v[w] == ';' && v[w + 1] == '\n' {
            let key = range_to_string(v, i, k);
            let val = range_to_string(v, k + 1, w);
            Some(((key, val), w + 2))
        } else {
            None
        }
    } else {
        None
    }
}

/// Scan the header: the attribute pairs in order and the index past the
/// `%%` marker.
fn scan_header(v: &Vec<char>) -> (r: Option<(Vec<(String, String)>, usize)>)
    ensures
        match r {
            Some(m) => {
                &&& header_at(v@, 0) == Some((attrs_view(m.0@), m.1 as int))
                &&& m.1 <= v@.len()
            },
            None => header_at(v@, 0) is None,
        },
{
    let mut attrs: Vec<(String, String)> = Vec::new();
    let mut cur: usize = 0;
    proof {
        match header_at(v@, 0) {
            Some(h) => {
                assert(attrs_view(attrs@) + h.0 =~= h.0);
            },
            None => {},
        }
    }
    loop
        invariant
            cur <= v@.len(),
            (match header_at(v@, cur as int) {
                Some(h) => header_at(v@, 0) == Some((attrs_view(attrs@) + h.0, h.1)),
                None => header_at(v@, 0) is None,
            }),
        decreases v@.len() - cur,
    {
        if v.len() - cur >= 2 && v[cur] == '%' && v[cur + 1] == '%' {
            let j: usize = if v.len() - cur >= 3 && v[cur + 2] == '\n' {
                cur + 3
            } else {
                cur + 2
            };
            proof {
                assert(attrs_view(attrs@) + Seq::<(Seq<char>, Seq<char>)>::empty() =~= attrs_view(
                    attrs@,
                ));
            }
            return Some((attrs, j));
        }
        match scan_attribute(v, cur) {
            Some((kv, j)) => {
                let ghost oa = attrs@;
                let ghost kvv = (kv.0@, kv.1@);
                attrs.push(kv);
                proof {
                    assert(attrs_view(attrs@) =~= attrs_view(oa) + seq![kvv]);
                    match header_at(v@, j as int) {
                        Some(h2) => {
                            assert((attrs_view(oa) + seq![kvv]) + h2.0 =~= attrs_view(oa) + (
                            seq![kvv] + h2.0));
                        },
                        None => {},
                    }
                }
                cur = j;
            },
            None => {
                return None;
            },
        }
    }
}

/// Whether everything from `i` on is white space.
fn all_space(v: &Vec<char>, i: usize) -> (r: bool)
    requires
        i <= v@.len(),
    ensures
        r == all_space_from(v@, i as int),
{
    let mut j: usize = i;
    while j < v.len()
        invariant
            i <= j <= v@.len(),
            forall|k: int| i <= k < j ==> is_space_char(#[trigger] v@[k]),
        decreases v@.len() - j,
    {
        if !is_space(v[j]) {
            return false;
        }
        j = j + 1;
    }
    true
}

/// Scan the body from `i`: the syllables in order, threading the ambient
/// clef.
fn scan_body(v: &Vec<char>, i: usize, clef: &String) -> (r: Option<Vec<Syllable>>)
    requires
        i <= v@.len(),
    ensures
        match r {
            Some(syls) => body_at(v@, i as int, clef@) == Some(syllables_view(syls@)),
            None => body_at(v@, i as int, clef@) is None,
        },
{
    let mut syls: Vec<Syllable> = Vec::new();
    let mut cur: usize = i;
    let mut cclef: String = clef.clone();
    proof {
        match body_at(v@, i as int, clef@) {
            Some(rest) => {
                assert(syllables_view(syls@) + rest =~= rest);
            },
            None => {},
        }
    }
    loop
        invariant
            i <= cur <= v@.len(),
            (match body_at(v@, cur as int, cclef@) {
                Some(rest) => body_at(v@, i as int, clef@) == Some(syllables_view(syls@) + rest),
                None => body_at(v@, i as int, clef@) is None,
            }),
        decreases v@.len() - cur,
    {
        if cur == v.len() {
            proof {
                assert(syllables_view(syls@) + Seq::<SyllableView>::empty() =~= syllables_view(
                    syls@,
                ));
            }
            return Some(syls);
        }
        match scan_syllable(v, cur, &cclef) {
            Some((syl, clef2, j)) => {
                let ghost os = syls@;
                let ghost sv = syl@;
                syls.push(syl);
                cclef = clef2;
                proof {
                    assert(syllables_view(syls@) =~= syllables_view(os) + seq![sv]);
                    match body_at(v@, j as int, cclef@) {
                        Some(rest2) => {
                            assert((syllables_view(os) + seq![sv]) + rest2 =~= syllables_view(os)
                                + (seq![sv] + rest2));
                        },
                        None => {},
                    }
                }
                cur = j;
            },
            None => {
                if all_space(v, cur) {
                    proof {
                        assert(syllables_view(syls@) + Seq::<SyllableView>::empty()
                            =~= syllables_view(syls@));
                    }
                    return Some(syls);
                } else {
                    return None;
                }
            },
        }
    }
}

/// A whole note production under a given clef: the input must be exactly
/// one note.
pub open spec fn spec_parse_note(s: Seq<char>, clef: Seq<char>) -> Option<NoteView> {
    match note_at(s, 0) {
        Some(t) => if t.end == s.len() {
            Some(
                NoteView {
                    prefix: t.prefix,
                    position: t.position,
                    suffix: t.suffix,
                    current_clef: clef,
                },
            )
        } else {
            None
        },
        None => None,
    }
}

/// A whole syllable production under a given clef: the input must be
/// exactly one syllable.
pub open spec fn spec_parse_syllable(s: Seq<char>, clef: Seq<char>) -> Option<SyllableView> {
    match syllable_at(s, 0, clef) {
        Some(m) => if m.2 == s.len() {
            Some(m.0)
        } else {
            None
        },
        None => None,
    }
}

/// A whole document: the header's attributes, then the body's syllables,
/// with the ambient clef starting at the sentinel.
pub open spec fn spec_parse_file(s: Seq<char>) -> Option<GabcFileView> {
    match header_at(s, 0) {
        Some(h) => match body_at(s, h.1, no_clef_set()) {
            Some(b) => Some(GabcFileView { attributes: h.0, syllables: b }),
            None => None,
        },
        None => None,
    }
}

/// Error raised when raw text does not match the grammar. The whole
/// operation fails: no partial model is produced.
#[derive(Debug, PartialEq, Eq, Structural)]
pub enum GabcError {
    /// The input is not a well-formed production of the requested rule.
    Rejected,
}

impl Note {
    /// Create a new note from well-formed gabc input, stamped with the
    /// given clef.
    pub fn new(gabc_input: &str, current_clef: &str) -> (r: Result<Note, GabcError>)
        ensures
            match r {
                Ok(n) => spec_parse_note(gabc_input@, current_clef@) == Some(n@),
                Err(_) => spec_parse_note(gabc_input@, current_clef@) is None,
            },
    {
        let v = str_chars(gabc_input);
        match scan_note(&v, 0) {
            Some((p, e)) => {
                if e == v.len() {
                    Ok(
                        Note {
                            prefix: range_to_string(&v, 0, p),
                            position: v[p],
                            suffix: range_to_string(&v, p + 1, e),
                            current_clef: String::from_str(current_clef),
                        },
                    )
                } else {
                    Err(GabcError::Rejected)
                }
            },
            None => Err(GabcError::Rejected),
        }
    }
}

impl Syllable {
    /// Create a new syllable from well-formed gabc input, its notes
    /// stamped from the given clef onward.
    pub fn new(gabc_input: &str, current_clef: &str) -> (r: Result<Syllable, GabcError>)
        ensures
            match r {
                Ok(y) => spec_parse_syllable(gabc_input@, current_clef@) == Some(y@),
                Err(_) => spec_parse_syllable(gabc_input@, current_clef@) is None,
            },
    {
        let v = str_chars(gabc_input);
        let cl = String::from_str(current_clef);
        match scan_syllable(&v, 0, &cl) {
            Some((y, _clef2, e)) => {
                if e == v.len() {
                    Ok(y)
                } else {
                    Err(GabcError::Rejected)
                }
            },
            None => Err(GabcError::Rejected),
        }
    }
}

impl GabcFile {
    /// Create a new `GabcFile` from well-formed gabc input.
    pub fn new(gabc_input: &str) -> (r: Result<GabcFile, GabcError>)
        ensures
            match r {
                Ok(f) => spec_parse_file(gabc_input@) == Some(f@),
                Err(_) => spec_parse_file(gabc_input@) is None,
            },
    {
        let v = str_chars(gabc_input);
        match scan_header(&v) {
            Some((attrs, j)) => {
                let sentinel = String::from_str("no clef set");
                match scan_body(&v, j, &sentinel) {
                    Some(syls) => Ok(GabcFile { attributes: attrs, syllables: syls }),
                    None => Err(GabcError::Rejected),
                }
            },
            None => Err(GabcError::Rejected),
        }
    }
}

/// The grammar's productions.
#[allow(non_camel_case_types)]
#[derive(Clone, Copy, Debug)]
pub enum Rule {
    file,
    attribute,
    syllable,
    note,
    clef,
    barline,
    spacer,
}

/// Whether `s` is exactly one production of `rule`. Matching does not
/// depend on the ambient clef, which the note and syllable checks take
/// as the sentinel.
pub open spec fn rule_matches(rule: Rule, s: Seq<char>) -> bool {
    match rule {
        Rule::file => spec_parse_file(s) is Some,
        Rule::attribute => (attribute_at(s, 0) matches Some(a) && a.1 == s.len()),
        Rule::syllable => spec_parse_syllable(s, no_clef_set()) is Some,
        Rule::note => spec_parse_note(s, no_clef_set()) is Some,
        Rule::clef => s.len() == 2 && clef_at(s, 0),
        Rule::barline => barline_at(s, 0) && barline_end(s, 0) == s.len(),
        Rule::spacer => s.len() == 1 && spacer_at(s, 0),
    }
}

/// Parser for gabc: checks raw text against single productions of the
/// grammar.
pub struct GABCParser;

impl GABCParser {
    /// Whether `text` is exactly one production of `rule`, as a result:
    /// `Ok` when the grammar derives it, `Err` when it rejects it.
    pub fn parse(rule: Rule, text: &str) -> (r: Result<(), GabcError>)
        ensures
            r is Ok <==> rule_matches(rule, text@),
    {
        let ok: bool = match rule {
            Rule::file => GabcFile::new(text).is_ok(),
            Rule::attribute => {
                let v = str_chars(text);
                match scan_attribute(&v, 0) {
                    Some((_kv, e)) => e == v.len(),
                    None => false,
                }
            },
            Rule::syllable => Syllable::new(text, "no clef set").is_ok(),
            Rule::note => Note::new(text, "no clef set").is_ok(),
            Rule::clef => {
                let v = str_chars(text);
                v.len() == 2 && (v[0] == 'c' || v[0] == 'f') && '1' <= v[1] && v[1] <= '4'
            },
            Rule::barline => {
                let v = str_chars(text);
                if v.len() == 1 {
                    v[0] == ':' || v[0] == ';' || v[0] == '\'' || v[0] == ','
                } else if v.len() == 2 {
                    v[0] == ':' && v[1] == ':'
                } else {
                    false
                }
            },
            Rule::spacer => {
                let v = str_chars(text);
                v.len() == 1 && v[0] == '/'
            },
        };
        if ok {
            Ok(())
        } else {
            Err(GabcError::Rejected)
        }
    }
}

} // verus!
