//! The notation emitter: the document model re-emitted as Lilypond
//! source. Each syllable's music becomes one line of tied notes, each
//! syllable's text one hyphen-joined lyric fragment, and the whole
//! document is spliced into a fixed three-part template.

use crate::model::music_view;
use crate::model::GabcFile;
use crate::model::GabcFileView;
use crate::model::NoteElem;
use crate::model::NoteElemView;
use crate::model::Syllable;
use crate::model::SyllableView;
use crate::pitch::is_position_char;
use crate::pitch::is_valid_clef;
use crate::pitch::is_valid_clef_str;
use crate::pitch::spec_absolute_pitch;
use crate::text::is_digit;
use crate::text::is_digit_char;
use crate::text::is_space;
use crate::text::is_space_char;
use crate::text::str_chars;
use crate::text::str_eq;
use vstd::prelude::*;
use vstd::string::StringExecFns;

verus! {

/// Lilypond text of a barline token: the four recognized separators map
/// to fixed division directives, and any other separator falls back to
/// the minor division.
pub open spec fn spec_barline_ly(s: Seq<char>) -> Seq<char> {
    if s == "'"@ {
        "\\divisioMinima"@
    } else if s == ";"@ {
        "\\divisioMaior"@
    } else if s == ":"@ {
        "\\divisioMaior"@
    } else if s == "::"@ {
        "\\finalis"@
    } else {
        "\\divisioMinima"@
    }
}

/// Whether one music element can be emitted: a note needs a recognized
/// clef and a staff position in range; barlines and spacers always can.
pub open spec fn elem_resolvable(e: NoteElemView) -> bool {
    match e {
        NoteElemView::Note(n) => is_valid_clef(n.current_clef) && is_position_char(n.position),
        NoteElemView::Barline(_) => true,
        NoteElemView::Spacer(_) => true,
    }
}

/// Lilypond text of one music element: a note's absolute pitch, a
/// barline's division directive, nothing for a spacer.
pub open spec fn spec_elem_ly(e: NoteElemView) -> Seq<char> {
    match e {
        NoteElemView::Barline(s) => spec_barline_ly(s),
        NoteElemView::Note(n) => spec_absolute_pitch(n.current_clef, n.position),
        NoteElemView::Spacer(_) => Seq::<char>::empty(),
    }
}

impl NoteElem {
    /// Get the Lilypond representation of this note element. gabc spacers
    /// (e.g. "/") are ignored; `Note` suffixes (e.g. ".") that have
    /// Lilypond equivalents are not yet implemented.
    pub fn to_ly(&self) -> (r: &'static str)
        requires
            elem_resolvable(self@),
        ensures
            r@ == spec_elem_ly(self@),
    {
        match self {
            NoteElem::Barline(s) => {
                if str_eq(s.as_str(), "'") {
                    "\\divisioMinima"
                } else if str_eq(s.as_str(), ";") {
                    "\\divisioMaior"
                } else if str_eq(s.as_str(), ":") {
                    "\\divisioMaior"
                } else if str_eq(s.as_str(), "::") {
                    "\\finalis"
                } else {
                    "\\divisioMinima"
                }
            },
            NoteElem::Note(n) => n.absolute_pitch(),
            NoteElem::Spacer(_) => {
                proof {
                    reveal_strlit("");
                    assert(""@ =~= Seq::<char>::empty());
                }
                ""
            },
        }
    }
}

/// Whether every element of a music sequence can be emitted.
pub open spec fn music_resolvable(m: Seq<NoteElemView>) -> bool {
    forall|k: int| 0 <= k < m.len() ==> elem_resolvable(#[trigger] m[k])
}

/// Separator before a tied element past the second: one space, unless
/// the element emits nothing, which must not add stray spacing.
pub open spec fn spec_sep(e: NoteElemView) -> Seq<char> {
    if spec_elem_ly(e).len() == 0 {
        Seq::<char>::empty()
    } else {
        " "@
    }
}

/// The tied tail of a music sequence: the texts of elements 2 up to `k`,
/// each preceded by its separator.
pub open spec fn spec_ly_tail(m: Seq<NoteElemView>, k: int) -> Seq<char>
    decreases k,
{
    if k <= 2 {
        Seq::<char>::empty()
    } else {
        spec_ly_tail(m, k - 1) + spec_sep(m[k - 1]) + spec_elem_ly(m[k - 1])
    }
}

/// One line of Lilypond notes for a music sequence: nothing for no
/// elements, the lone element's text for one, and otherwise the first
/// element's text with everything after it wrapped in one tie group.
pub open spec fn spec_ly_notes(m: Seq<NoteElemView>) -> Seq<char> {
    if m.len() == 0 {
        Seq::<char>::empty()
    } else if m.len() == 1 {
        spec_elem_ly(m[0])
    } else {
        spec_elem_ly(m[0]) + "("@ + spec_elem_ly(m[1]) + spec_ly_tail(m, m.len() as int) + ")"@
    }
}

impl Syllable {
    /// Translate this syllable's music string into a tied sequence of
    /// Lilypond notes.
    pub fn ly_notes(&self) -> (r: String)
        requires
            music_resolvable(self@.music),
        ensures
            r@ == spec_ly_notes(self@.music),
    {
        let mut result = String::new();
        if self.music.len() == 0 {
            return result;
        }
        let e0 = &self.music[0];
        proof {
            assert(e0@ == self@.music[0]);
            assert(elem_resolvable(self@.music[0]));
        }
        let t0 = e0.to_ly();
        result.append(t0);
        proof {
            assert(Seq::<char>::empty() + t0@ =~= t0@);
        }
        if self.music.len() == 1 {
            return result;
        }
        result.append("(");
        let e1 = &self.music[1];
        proof {
            assert(e1@ == self@.music[1]);
            assert(elem_resolvable(self@.music[1]));
        }
        let t1 = e1.to_ly();
        result.append(t1);
        proof {
            assert(result@ =~= spec_elem_ly(self@.music[0]) + "("@ + spec_elem_ly(self@.music[1])
                + spec_ly_tail(self@.music, 2));
        }
        let mut k: usize = 2;
        while k < self.music.len()
            invariant
                2 <= k <= self@.music.len(),
                self@.music.len() == self.music@.len(),
                music_resolvable(self@.music),
                result@ == spec_elem_ly(self@.music[0]) + "("@ + spec_elem_ly(self@.music[1])
                    + spec_ly_tail(self@.music, k as int),
            decreases self@.music.len() - k,
        {
            let ek = &self.music[k];
            proof {
                assert(ek@ == self@.music[k as int]);
                assert(elem_resolvable(self@.music[k as int]));
            }
            let t = ek.to_ly();
            let ghost pre = result@;
            if !t.is_empty() {
                result.append(" ");
            }
            result.append(t);
            proof {
                if t@.len() == 0 {
                    assert(pre + t@ =~= pre + spec_sep(self@.music[k as int]) + spec_elem_ly(
                        self@.music[k as int],
                    ));
                } else {
                    assert((pre + " "@) + t@ =~= pre + spec_sep(self@.music[k as int])
                        + spec_elem_ly(self@.music[k as int]));
                }
            }
            k = k + 1;
        }
        result.append(")");
        result
    }
}

/// One leading character dropped for each leading white-space character.
pub open spec fn drop_leading_ws(s: Seq<char>) -> Seq<char>
    decreases s.len(),
{
    if s.len() > 0 && is_space_char(s[0]) {
        drop_leading_ws(s.drop_first())
    } else {
        s
    }
}

/// One trailing character dropped for each trailing white-space
/// character.
pub open spec fn drop_trailing_ws(s: Seq<char>) -> Seq<char>
    decreases s.len(),
{
    if s.len() > 0 && is_space_char(s.last()) {
        drop_trailing_ws(s.drop_last())
    } else {
        s
    }
}

/// The string with its leading and trailing white space removed.
pub open spec fn spec_trim(s: Seq<char>) -> Seq<char> {
    drop_trailing_ws(drop_leading_ws(s))
}

/// Dropping leading white space keeps exactly the suffix that starts at
/// the first non-white-space character.
pub(crate) proof fn lemma_drop_leading_ws(s: Seq<char>, a: int)
    requires
        0 <= a <= s.len(),
        forall|k: int| 0 <= k < a ==> is_space_char(#[trigger] s[k]),
        a == s.len() || !is_space_char(s[a]),
    ensures
        drop_leading_ws(s) == s.subrange(a, s.len() as int),
    decreases a,
{
    if a == 0 {
        assert(drop_leading_ws(s) =~= s.subrange(0, s.len() as int));
    } else {
        assert(is_space_char(s[0]));
        let s1 = s.drop_first();
        assert(forall|k: int| 0 <= k < a - 1 ==> is_space_char(#[trigger] s1[k]));
        lemma_drop_leading_ws(s1, a - 1);
        assert(s1.subrange(a - 1, s1.len() as int) =~= s.subrange(a, s.len() as int));
    }
}

/// Dropping trailing white space keeps exactly the prefix that ends just
/// past the last non-white-space character.
pub(crate) proof fn lemma_drop_trailing_ws(s: Seq<char>, b: int)
    requires
        0 <= b <= s.len(),
        forall|k: int| b <= k < s.len() ==> is_space_char(#[trigger] s[k]),
        b == 0 || !is_space_char(s[b - 1]),
    ensures
        drop_trailing_ws(s) == s.subrange(0, b),
    decreases s.len(),
{
    if b == s.len() {
        assert(drop_trailing_ws(s) =~= s.subrange(0, b));
    } else {
        assert(is_space_char(s.last()));
        let s1 = s.drop_last();
        assert(forall|k: int| b <= k < s1.len() ==> is_space_char(#[trigger] s1[k]));
        lemma_drop_trailing_ws(s1, b);
        assert(s1.subrange(0, b) =~= s.subrange(0, b));
    }
}

/// The bounds of the trimmed middle of `v`: the index of its first
/// non-white-space character and the index just past its last one.
fn trim_bounds(v: &Vec<char>) -> (r: (usize, usize))
    ensures
        r.0 <= r.1 <= v@.len(),
        spec_trim(v@) == v@.subrange(r.0 as int, r.1 as int),
{
    let n = v.len();
    let mut a: usize = 0;
    while a < n && is_space(v[a])
        invariant
            a <= n,
            n == v@.len(),
            forall|k: int| 0 <= k < a ==> is_space_char(#[trigger] v@[k]),
        decreases n - a,
    {
        a = a + 1;
    }
    let mut b: usize = n;
    while b > a && is_space(v[b - 1])
        invariant
            a <= b <= n,
            n == v@.len(),
            forall|k: int| b <= k < n ==> is_space_char(#[trigger] v@[k]),
        decreases b,
    {
        b = b - 1;
    }
    proof {
        lemma_drop_leading_ws(v@, a as int);
        let s1 = v@.subrange(a as int, v@.len() as int);
        assert(forall|k: int|
            b - a <= k < s1.len() ==> is_space_char(#[trigger] s1[k]) == is_space_char(
                v@[k + a],
            ));
        lemma_drop_trailing_ws(s1, b - a);
        assert(s1.subrange(0, b - a) =~= v@.subrange(a as int, b as int));
    }
    (a, b)
}

/// One character of the cleaning pass: braces vanish, spaces become
/// underscores, everything else stands as it is.
pub open spec fn clean_one(c: char) -> Seq<char> {
    if c == '{' || c == '}' {
        Seq::<char>::empty()
    } else if c == ' ' {
        seq!['_']
    } else {
        seq![c]
    }
}

/// The cleaning pass over the trimmed text.
pub open spec fn spec_clean(s: Seq<char>) -> Seq<char>
    decreases s.len(),
{
    if s.len() == 0 {
        Seq::<char>::empty()
    } else {
        spec_clean(s.drop_last()) + clean_one(s.last())
    }
}

/// The sanitized text assembled from its parts: the restored lead
/// space, the cleaned core quoted when it starts with a digit, and the
/// restored trail space.
pub open spec fn sanitize_parts(lead: bool, trail: bool, core: Seq<char>) -> Seq<char> {
    let quoted: Seq<char> = if core.len() > 0 && is_digit_char(core[0]) {
        seq!['"'] + core + seq!['"']
    } else {
        core
    };
    (if lead {
        seq![' ']
    } else {
        Seq::<char>::empty()
    }) + quoted + (if trail {
        seq![' ']
    } else {
        Seq::<char>::empty()
    })
}

/// Sanitized syllable text: the text trimmed and cleaned, quoted when it
/// then starts with a digit, with one boundary space restored on each
/// side whose end of the original had white space.
pub open spec fn spec_sanitize(s: Seq<char>) -> Seq<char> {
    sanitize_parts(
        s.len() > 0 && is_space_char(s[0]),
        s.len() > 0 && is_space_char(s[s.len() - 1]),
        spec_clean(spec_trim(s)),
    )
}

/// The cleaning pass, executably: the characters of `v` between `a` and
/// `b`, braces dropped and spaces turned to underscores.
fn clean_range(v: &Vec<char>, a: usize, b: usize) -> (core: Vec<char>)
    requires
        a <= b <= v@.len(),
    ensures
        core@ == spec_clean(v@.subrange(a as int, b as int)),
{
    let mut core: Vec<char> = Vec::new();
    proof {
        assert(v@.subrange(a as int, a as int) =~= Seq::<char>::empty());
    }
    let mut k: usize = a;
    while k < b
        invariant
            a <= k <= b <= v@.len(),
            core@ == spec_clean(v@.subrange(a as int, k as int)),
        decreases b - k,
    {
        let c = v[k];
        let ghost oc = core@;
        if c == '{' || c == '}' {
        } else if c == ' ' {
            core.push('_');
        } else {
            core.push(c);
        }
        k = k + 1;
        proof {
            assert(v@.subrange(a as int, k as int).drop_last() =~= v@.subrange(a as int, k - 1));
            assert(v@.subrange(a as int, k as int).last() == v@[k - 1]);
            assert(core@ =~= oc + clean_one(v@[k - 1]));
        }
    }
    core
}

/// Rebuild the sanitized text from its parts: lead space, opening
/// quote when the core starts with a digit, cleaned core, closing
/// quote, trail space.
fn assemble_sanitized(lead: bool, trail: bool, core: &Vec<char>) -> (r: String)
    ensures
        r@ == sanitize_parts(lead, trail, core@),
{
    let quote = core.len() > 0 && is_digit(core[0]);
    let mut r = String::new();
    if lead {
        r.push(' ');
    }
    if quote {
        r.push('"');
    }
    let ghost pre = r@;
    proof {
        if lead && quote {
            assert(pre =~= seq![' ', '"']);
        }
        if lead && !quote {
            assert(pre =~= seq![' ']);
        }
        if !lead && quote {
            assert(pre =~= seq!['"']);
        }
        if !lead && !quote {
            assert(pre =~= Seq::<char>::empty());
        }
    }
    let mut m: usize = 0;
    while m < core.len()
        invariant
            m <= core@.len(),
            r@ == pre + core@.take(m as int),
        decreases core@.len() - m,
    {
        r.push(core[m]);
        m = m + 1;
        proof {
            assert(core@.take(m as int) =~= core@.take(m - 1).push(core@[m - 1]));
            assert(pre + core@.take(m - 1).push(core@[m - 1]) =~= (pre + core@.take(m - 1)).push(
                core@[m - 1],
            ));
        }
    }
    proof {
        assert(pre + core@.take(core@.len() as int) =~= pre + core@);
    }
    if quote {
        r.push('"');
    }
    if trail {
        r.push(' ');
    }
    proof {
        assert(r@ =~= sanitize_parts(lead, trail, core@));
    }
    r
}

/// Sanitize a syllable for Lilypond by removing brace characters,
/// replacing interior spaces with underscores, and surrounding anything
/// starting with a digit with "double quotes" (this prevents Lilypond
/// from misreading a leading digit as a duration). One boundary space is
/// kept on each side of the text that had white space there.
pub fn sanitize_ly_syllable(text: &str) -> (r: String)
    ensures
        r@ == spec_sanitize(text@),
{
    let v = str_chars(text);
    let n = v.len();
    let lead = n > 0 && is_space(v[0]);
    let trail = n > 0 && is_space(v[n - 1]);
    let (a, b) = trim_bounds(&v);
    let core = clean_range(&v, a, b);
    let r = assemble_sanitized(lead, trail, &core);
    proof {
        assert(core@ == spec_clean(spec_trim(text@)));
        assert(lead == (text@.len() > 0 && is_space_char(text@[0])));
        assert(trail == (text@.len() > 0 && is_space_char(text@[text@.len() - 1])));
    }
    r
}

/// Whether the music holds at least one note.
pub open spec fn has_note(m: Seq<NoteElemView>) -> bool {
    exists|k: int| 0 <= k < m.len() && m[k] is Note
}

/// Note search over a music vector.
fn music_has_note(m: &Vec<NoteElem>) -> (r: bool)
    ensures
        r == has_note(music_view(m@)),
{
    let mut k: usize = 0;
    while k < m.len()
        invariant
            k <= m@.len(),
            forall|i: int| 0 <= i < k ==> !(#[trigger] music_view(m@)[i] is Note),
        decreases m@.len() - k,
    {
        match &m[k] {
            NoteElem::Note(_) => {
                proof {
                    assert(music_view(m@)[k as int] is Note);
                }
                return true;
            },
            _ => {},
        }
        proof {
            assert(!(music_view(m@)[k as int] is Note));
        }
        k = k + 1;
    }
    false
}

/// The stanza-label directive around sanitized text, for a syllable with
/// no notes: it keeps Lilypond from aligning the text to a missing note.
pub open spec fn spec_stanza_wrap(t: Seq<char>) -> Seq<char> {
    " \\set stanza = \""@ + t + "\" "@
}

/// A syllable's lyric text: its sanitized text, or that text's
/// stanza-label wrapping when the music has no notes and the text is
/// non-blank.
pub open spec fn spec_ly_text(y: SyllableView) -> Seq<char> {
    let t = spec_sanitize(y.text);
    if !has_note(y.music) && spec_trim(t).len() != 0 {
        spec_stanza_wrap(t)
    } else {
        t
    }
}

impl Syllable {
    /// Translate this syllable's text into Lilypond lyrics. If there are
    /// no Notes in this syllable's music string, add "\set stanza = " to
    /// prevent Lilypond matching this text to a note.
    pub fn ly_text(&self) -> (r: String)
        ensures
            r@ == spec_ly_text(self@),
    {
        let text = sanitize_ly_syllable(self.text.as_str());
        let flag = music_has_note(&self.music);
        let tv = str_chars(text.as_str());
        let (a, b) = trim_bounds(&tv);
        if !flag && b > a {
            let mut r = String::from_str(" \\set stanza = \"");
            r.append(text.as_str());
            r.append("\" ");
            proof {
                assert(r@ =~= spec_stanza_wrap(text@));
            }
            r
        } else {
            text
        }
    }
}

/// Whether `s` has no trailing white space.
pub open spec fn no_trailing_ws(s: Seq<char>) -> bool {
    s.len() == 0 || !is_space_char(s.last())
}

/// Whether `s` has no leading white space.
pub open spec fn no_leading_ws(s: Seq<char>) -> bool {
    s.len() == 0 || !is_space_char(s[0])
}

/// The join between two adjacent lyric texts: the hyphenation token when
/// neither brings boundary white space to the junction — the fragments
/// then belong to one word — and nothing otherwise.
pub open spec fn spec_join(prev: Seq<char>, next: Seq<char>) -> Seq<char> {
    if no_trailing_ws(prev) && no_leading_ws(next) {
        " -- "@
    } else {
        Seq::<char>::empty()
    }
}

/// The lyric line of a sequence of syllables: each syllable's lyric text
/// in order, with the join between each adjacent pair.
pub open spec fn spec_lyrics(ys: Seq<SyllableView>) -> Seq<char>
    decreases ys.len(),
{
    if ys.len() == 0 {
        Seq::<char>::empty()
    } else if ys.len() == 1 {
        spec_ly_text(ys[0])
    } else {
        spec_lyrics(ys.drop_last()) + spec_join(
            spec_ly_text(ys[ys.len() - 2]),
            spec_ly_text(ys.last()),
        ) + spec_ly_text(ys.last())
    }
}

/// Hyphenation test between two emitted lyric texts.
fn joinable(prev: &str, next: &str) -> (r: bool)
    ensures
        r == (no_trailing_ws(prev@) && no_leading_ws(next@)),
{
    let np = prev.unicode_len();
    let a = np == 0 || !is_space(prev.get_char(np - 1));
    let nn = next.unicode_len();
    let b = nn == 0 || !is_space(next.get_char(0));
    a && b
}

/// Opening of the fixed Lilypond template: the gregorian staff support
/// and the start of the chant voice, up to the note lines.
pub open spec fn ly_template_head() -> Seq<char> {
    "\\include \"gregorian.ly\"\n\nchant = \\absolute { \\transpose c c' {\n  \\set Score.timing = ##f\n  "@
}

/// The template's opening, as source text.
fn ly_head_str() -> (r: &'static str)
    ensures
        r@ == ly_template_head(),
{
    "\\include \"gregorian.ly\"\n\nchant = \\absolute { \\transpose c c' {\n  \\set Score.timing = ##f\n  "
}

/// Middle of the fixed Lilypond template: the close of the chant voice
/// and the start of the lyric mode, between the note lines and the
/// lyric line.
pub open spec fn ly_template_mid() -> Seq<char> {
    "\n}}\n\nverba = \\lyricmode {\n  "@
}

/// The template's middle, as source text.
fn ly_mid_str() -> (r: &'static str)
    ensures
        r@ == ly_template_mid(),
{
    "\n}}\n\nverba = \\lyricmode {\n  "
}

/// Closing of the fixed Lilypond template: the score block binding the
/// chant voice to the lyrics, with the staff-layout overrides.
pub open spec fn ly_template_tail() -> Seq<char> {
    "\n}\n\n\\score {\n  \\new Staff <<\n    \\new Voice = \"melody\" \\chant\n    \\new Lyrics = \"one\" \\lyricsto melody \\verba\n  >>\n  \\layout {\n    \\context {\n      \\Staff\n      \\remove \"Time_signature_engraver\"\n      \\remove \"Bar_engraver\"\n      \\hide Stem\n    }\n    \\context {\n      \\Voice\n      \\override Stem.length = #0\n    }\n    \\context {\n      \\Score\n      barAlways = ##t\n    }\n  }\n}"@
}

/// The template's closing, as source text.
fn ly_tail_str() -> (r: &'static str)
    ensures
        r@ == ly_template_tail(),
{
    "\n}\n\n\\score {\n  \\new Staff <<\n    \\new Voice = \"melody\" \\chant\n    \\new Lyrics = \"one\" \\lyricsto melody \\verba\n  >>\n  \\layout {\n    \\context {\n      \\Staff\n      \\remove \"Time_signature_engraver\"\n      \\remove \"Bar_engraver\"\n      \\hide Stem\n    }\n    \\context {\n      \\Voice\n      \\override Stem.length = #0\n    }\n    \\context {\n      \\Score\n      barAlways = ##t\n    }\n  }\n}"
}

/// A whole Lilypond file: the fixed template around the note lines and
/// the lyric line.
pub open spec fn spec_lilypond(f: GabcFileView) -> Seq<char> {
    ly_template_head() + spec_notes_block(f.syllables) + ly_template_mid() + spec_lyrics(
        f.syllables,
    ) + ly_template_tail()
}

/// The note lines of a document: one tied line per syllable, each
/// closed by a line break.
pub open spec fn spec_notes_block(ys: Seq<SyllableView>) -> Seq<char>
    decreases ys.len(),
{
    if ys.len() == 0 {
        Seq::<char>::empty()
    } else {
        spec_notes_block(ys.drop_last()) + spec_ly_notes(ys.last().music) + seq!['\n']
    }
}

/// Whether every note of the document lies under a recognized clef with
/// a staff position in range, so that all its pitches resolve.
pub open spec fn file_resolvable(f: GabcFileView) -> bool {
    forall|k: int| 0 <= k < f.syllables.len() ==> music_resolvable(#[trigger] f.syllables[k].music)
}

impl GabcFile {
    /// Whether every note of this file can be resolved to an absolute
    /// pitch: its notes all carry one of the eight recognized clefs, not
    /// the "no clef set" sentinel. Emission of Lilypond notes asks for
    /// this first.
    pub fn pitches_resolvable(&self) -> (r: bool)
        ensures
            r == file_resolvable(self@),
    {
        let mut k: usize = 0;
        while k < self.syllables.len()
            invariant
                k <= self@.syllables.len(),
                self@.syllables.len() == self.syllables@.len(),
                forall|i: int|
                    0 <= i < k ==> music_resolvable(#[trigger] self@.syllables[i].music),
            decreases self@.syllables.len() - k,
        {
            let y = &self.syllables[k];
            proof {
                assert(y@ == self@.syllables[k as int]);
            }
            let mut j: usize = 0;
            while j < y.music.len()
                invariant
                    j <= y@.music.len(),
                    y@.music.len() == y.music@.len(),
                    k < self@.syllables.len(),
                    y@ == self@.syllables[k as int],
                    forall|i: int| 0 <= i < j ==> elem_resolvable(#[trigger] y@.music[i]),
                decreases y@.music.len() - j,
            {
                let e = &y.music[j];
                proof {
                    assert(e@ == y@.music[j as int]);
                }
                match e {
                    NoteElem::Note(n) => {
                        if !is_valid_clef_str(n.current_clef.as_str()) || !crate::pitch::is_position(
                            n.position,
                        ) {
                            proof {
                                assert(!elem_resolvable(y@.music[j as int]));
                                assert(!music_resolvable(self@.syllables[k as int].music));
                            }
                            return false;
                        }
                    },
                    _ => {},
                }
                proof {
                    assert(elem_resolvable(y@.music[j as int]));
                }
                j = j + 1;
            }
            proof {
                assert(music_resolvable(self@.syllables[k as int].music));
            }
            k = k + 1;
        }
        true
    }

    /// The note lines of this file: one line of tied Lilypond notes per
    /// syllable, in order.
    pub fn ly_notes(&self) -> (r: String)
        requires
            file_resolvable(self@),
        ensures
            r@ == spec_notes_block(self@.syllables),
    {
        let mut r = String::new();
        proof {
            assert(self@.syllables.take(0) =~= Seq::<SyllableView>::empty());
        }
        let mut k: usize = 0;
        while k < self.syllables.len()
            invariant
                k <= self@.syllables.len(),
                self@.syllables.len() == self.syllables@.len(),
                file_resolvable(self@),
                r@ == spec_notes_block(self@.syllables.take(k as int)),
            decreases self@.syllables.len() - k,
        {
            let y = &self.syllables[k];
            proof {
                assert(y@ == self@.syllables[k as int]);
                assert(music_resolvable(self@.syllables[k as int].music));
            }
            let line = y.ly_notes();
            let ghost pre = r@;
            r.append(line.as_str());
            r.append("\n");
            k = k + 1;
            proof {
                reveal_strlit("\n");
                assert("\n"@ =~= seq!['\n']);
                assert(self@.syllables.take(k as int).drop_last() =~= self@.syllables.take(k - 1));
                assert(self@.syllables.take(k as int).last() == self@.syllables[k - 1]);
                assert((pre + line@) + "\n"@ =~= pre + spec_ly_notes(
                    self@.syllables[k - 1].music,
                ) + seq!['\n']);
            }
        }
        proof {
            assert(self@.syllables.take(self@.syllables.len() as int) =~= self@.syllables);
        }
        r
    }

    /// Translate this `GabcFile` into a well-formed Lilypond file, by
    /// translating its text and music and inserting them into a template
    /// derived from the Lilypond documentation's ancient-notation
    /// template for modern transcriptions of Gregorian music.
    pub fn as_lilypond(&self) -> (r: String)
        requires
            file_resolvable(self@),
        ensures
            r@ == spec_lilypond(self@),
    {
        let mut r = String::from_str(ly_head_str());
        let notes = self.ly_notes();
        r.append(notes.as_str());
        r.append(ly_mid_str());
        let lyr = self.ly_lyrics();
        r.append(lyr.as_str());
        r.append(ly_tail_str());
        r
    }

    /// Extract the text of this file into well-formed Lilypond lyrics,
    /// inserting " -- " to join syllables where appropriate.
    pub fn ly_lyrics(&self) -> (r: String)
        ensures
            r@ == spec_lyrics(self@.syllables),
    {
        let mut r = String::new();
        let mut prev = String::new();
        proof {
            assert(self@.syllables.take(0) =~= Seq::<SyllableView>::empty());
        }
        let mut k: usize = 0;
        while k < self.syllables.len()
            invariant
                k <= self@.syllables.len(),
                self@.syllables.len() == self.syllables@.len(),
                r@ == spec_lyrics(self@.syllables.take(k as int)),
                k > 0 ==> prev@ == spec_ly_text(self@.syllables[k - 1]),
            decreases self@.syllables.len() - k,
        {
            let y = &self.syllables[k];
            proof {
                assert(y@ == self@.syllables[k as int]);
            }
            let t = y.ly_text();
            let ghost pre = r@;
            if k > 0 {
                if joinable(prev.as_str(), t.as_str()) {
                    r.append(" -- ");
                }
            }
            r.append(t.as_str());
            k = k + 1;
            proof {
                let ys = self@.syllables.take(k as int);
                assert(ys.drop_last() =~= self@.syllables.take(k - 1));
                assert(ys.last() == self@.syllables[k - 1]);
                if k == 1 {
                    assert(pre + t@ =~= t@);
                } else {
                    assert(ys[ys.len() - 2] == self@.syllables[k - 2]);
                    if no_trailing_ws(prev@) && no_leading_ws(t@) {
                        assert((pre + " -- "@) + t@ =~= pre + spec_join(prev@, t@) + t@);
                    } else {
                        assert(pre + t@ =~= pre + spec_join(prev@, t@) + t@);
                    }
                }
            }
            prev = t;
        }
        proof {
            assert(self@.syllables.take(self@.syllables.len() as int) =~= self@.syllables);
        }
        r
    }
}

} // verus!
