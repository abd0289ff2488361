//! Laws of the emitter, stated and proved once for all inputs: the shape
//! of the tied note line, the stanza-label rule, the hyphenation rule,
//! and the idempotence of the sanitizer.

use crate::emit::clean_one;
use crate::emit::has_note;
use crate::emit::lemma_drop_leading_ws;
use crate::emit::lemma_drop_trailing_ws;
use crate::emit::sanitize_parts;
use crate::emit::spec_clean;
use crate::emit::no_leading_ws;
use crate::emit::no_trailing_ws;
use crate::emit::spec_barline_ly;
use crate::emit::spec_elem_ly;
use crate::emit::spec_join;
use crate::emit::spec_ly_notes;
use crate::emit::spec_ly_tail;
use crate::emit::spec_ly_text;
use crate::emit::spec_lyrics;
use crate::emit::spec_sanitize;
use crate::emit::spec_sep;
use crate::emit::spec_stanza_wrap;
use crate::emit::spec_trim;
use crate::model::NoteElemView;
use crate::text::is_digit_char;
use crate::text::is_space_char;
use crate::model::SyllableView;
use crate::pitch::pitch_ladder;
use crate::pitch::spec_absolute_pitch;
use vstd::prelude::*;

verus! {

/// No pitch-ladder entry contains a tie parenthesis.
proof fn lemma_pitch_ladder_no_paren(i: int)
    ensures
        forall|k: int|
            0 <= k < pitch_ladder(i).len() ==> #[trigger] pitch_ladder(i)[k] != '('
                && pitch_ladder(i)[k] != ')',
{
    reveal_strlit("a,");
    reveal_strlit("b,");
    reveal_strlit("c");
    reveal_strlit("d");
    reveal_strlit("e");
    reveal_strlit("f");
    reveal_strlit("g");
    reveal_strlit("a");
    reveal_strlit("b");
    reveal_strlit("c'");
    reveal_strlit("d'");
    reveal_strlit("e'");
    reveal_strlit("f'");
    reveal_strlit("g'");
    reveal_strlit("a'");
    reveal_strlit("b'");
    reveal_strlit("c''");
    reveal_strlit("d''");
    reveal_strlit("e''");
    reveal_strlit("f''");
    reveal_strlit("g''");
    reveal_strlit("a'''");
}

/// No emitted element text contains a tie parenthesis.
proof fn lemma_elem_ly_no_paren(e: NoteElemView)
    ensures
        forall|k: int|
            0 <= k < spec_elem_ly(e).len() ==> #[trigger] spec_elem_ly(e)[k] != '('
                && spec_elem_ly(e)[k] != ')',
{
    reveal_strlit("\\divisioMinima");
    reveal_strlit("\\divisioMaior");
    reveal_strlit("\\finalis");
    match e {
        NoteElemView::Note(n) => {
            lemma_pitch_ladder_no_paren(
                crate::pitch::clef_offset(n.current_clef) + crate::pitch::position_index(
                    n.position,
                ),
            );
        },
        NoteElemView::Barline(_) => {},
        NoteElemView::Spacer(_) => {},
    }
}

/// No tied tail contains a tie parenthesis: it is separators and
/// element texts only.
proof fn lemma_ly_tail_no_paren(m: Seq<NoteElemView>, j: int)
    ensures
        forall|k: int|
            0 <= k < spec_ly_tail(m, j).len() ==> #[trigger] spec_ly_tail(m, j)[k] != '('
                && spec_ly_tail(m, j)[k] != ')',
    decreases j,
{
    reveal_strlit(" ");
    if j > 2 {
        lemma_ly_tail_no_paren(m, j - 1);
        lemma_elem_ly_no_paren(m[j - 1]);
        let t = spec_ly_tail(m, j);
        let t1 = spec_ly_tail(m, j - 1);
        let sp = spec_sep(m[j - 1]);
        let el = spec_elem_ly(m[j - 1]);
        assert(t == t1 + sp + el);
        assert forall|k: int| 0 <= k < t.len() implies t[k] != '(' && t[k] != ')' by {
            if k < t1.len() {
                assert(t[k] == t1[k]);
            } else if k < t1.len() + sp.len() {
                assert(t[k] == sp[k - t1.len()]);
            } else {
                assert(t[k] == el[k - t1.len() - sp.len()]);
            }
        }
    }
}

/// A syllable with no music elements emits an empty note line.
pub proof fn lemma_ly_notes_empty(m: Seq<NoteElemView>)
    requires
        m.len() == 0,
    ensures
        spec_ly_notes(m).len() == 0,
{
}

/// A syllable with exactly one music element emits exactly that
/// element's text, with no tie parenthesis anywhere in it.
pub proof fn lemma_ly_notes_single(m: Seq<NoteElemView>)
    requires
        m.len() == 1,
    ensures
        spec_ly_notes(m) == spec_elem_ly(m[0]),
        forall|k: int|
            0 <= k < spec_ly_notes(m).len() ==> #[trigger] spec_ly_notes(m)[k] != '('
                && spec_ly_notes(m)[k] != ')',
{
    lemma_elem_ly_no_paren(m[0]);
}

/// With two or more music elements, the note line is the first
/// element's text, then one tie group wrapping everything after it:
/// the second element's text and each later element's text preceded by
/// one separating space, or by nothing when that element emits nothing.
/// The group's parentheses are the only ones in the line: none stand
/// before the opening one, none inside the pair, and the closing one
/// ends the line.
pub proof fn lemma_ly_notes_tied(m: Seq<NoteElemView>)
    requires
        m.len() >= 2,
    ensures
        spec_ly_notes(m) == spec_elem_ly(m[0]) + seq!['('] + spec_elem_ly(m[1]) + spec_ly_tail(
            m,
            m.len() as int,
        ) + seq![')'],
        forall|k: int|
            0 <= k < spec_elem_ly(m[0]).len() ==> #[trigger] spec_ly_notes(m)[k] != '('
                && spec_ly_notes(m)[k] != ')',
        spec_ly_notes(m)[spec_elem_ly(m[0]).len() as int] == '(',
        spec_ly_notes(m).last() == ')',
        forall|k: int|
            spec_elem_ly(m[0]).len() < k < spec_ly_notes(m).len() - 1
                ==> #[trigger] spec_ly_notes(m)[k] != '(' && spec_ly_notes(m)[k] != ')',
{
    reveal_strlit("(");
    reveal_strlit(")");
    assert("("@ =~= seq!['(']);
    assert(")"@ =~= seq![')']);
    lemma_elem_ly_no_paren(m[0]);
    lemma_elem_ly_no_paren(m[1]);
    lemma_ly_tail_no_paren(m, m.len() as int);
}

/// The cleaning pass leaves no brace and no space in its output.
proof fn lemma_clean_no_special(s: Seq<char>)
    ensures
        forall|k: int|
            0 <= k < spec_clean(s).len() ==> #[trigger] spec_clean(s)[k] != '{' && spec_clean(
                s,
            )[k] != '}' && spec_clean(s)[k] != ' ',
    decreases s.len(),
{
    if s.len() > 0 {
        lemma_clean_no_special(s.drop_last());
        let t = spec_clean(s);
        let t1 = spec_clean(s.drop_last());
        let c1 = clean_one(s.last());
        assert(t == t1 + c1);
        assert forall|k: int| 0 <= k < t.len() implies t[k] != '{' && t[k] != '}' && t[k] != ' '
        by {
            if k < t1.len() {
                assert(t[k] == t1[k]);
            } else {
                assert(t[k] == c1[k - t1.len()]);
            }
        }
    }
}

/// Cleaning brace-free, space-free text returns it unchanged.
proof fn lemma_clean_id(s: Seq<char>)
    requires
        forall|k: int| 0 <= k < s.len() ==> #[trigger] s[k] != '{' && s[k] != '}' && s[k] != ' ',
    ensures
        spec_clean(s) == s,
    decreases s.len(),
{
    if s.len() > 0 {
        lemma_clean_id(s.drop_last());
        assert(clean_one(s.last()) == seq![s.last()]);
        assert(s.drop_last() + seq![s.last()] =~= s);
    }
}

/// Whether sanitized text keeps its exact shape under a second
/// sanitization. Only two escapes break that: a brace stripped by the
/// cleaning pass can expose a non-space white-space character (such as
/// a tab) at an end of the unquoted core, where the next pass would
/// trim it; and text that cleans away entirely while only one of its
/// two ends had white space restores one space, which the next pass
/// reads as white space on both ends.
pub open spec fn sanitize_stable(s: Seq<char>) -> bool {
    let core = spec_clean(spec_trim(s));
    if core.len() == 0 {
        (s.len() > 0 && is_space_char(s[0])) == (s.len() > 0 && is_space_char(s[s.len() - 1]))
    } else {
        !is_space_char(core[0]) && (!is_space_char(core[core.len() - 1]) || is_digit_char(
            core[0],
        ))
    }
}

/// Sanitizing the same text twice yields the same result as sanitizing
/// once; in particular the digit-quoting rule is never reapplied, since
/// a quoted result starts with a quotation mark and not with a digit.
pub proof fn lemma_sanitize_idempotent(s: Seq<char>)
    requires
        sanitize_stable(s),
    ensures
        spec_sanitize(spec_sanitize(s)) == spec_sanitize(s),
{
    let core = spec_clean(spec_trim(s));
    let lead = s.len() > 0 && is_space_char(s[0]);
    let trail = s.len() > 0 && is_space_char(s[s.len() - 1]);
    let quote = core.len() > 0 && is_digit_char(core[0]);
    let leadv: Seq<char> = if lead {
        seq![' ']
    } else {
        Seq::<char>::empty()
    };
    let trailv: Seq<char> = if trail {
        seq![' ']
    } else {
        Seq::<char>::empty()
    };
    let q: Seq<char> = if quote {
        seq!['"'] + core + seq!['"']
    } else {
        core
    };
    let r = spec_sanitize(s);
    assert(r == leadv + q + trailv);
    lemma_clean_no_special(spec_trim(s));
    if core.len() == 0 {
        assert(!quote);
        if !lead {
            assert(r =~= Seq::<char>::empty());
            assert(spec_clean(spec_trim(r)) =~= Seq::<char>::empty());
            assert(spec_sanitize(r) =~= r);
        } else {
            assert(r =~= seq![' ', ' ']);
            assert(is_space_char(r[0]) && is_space_char(r[1]));
            lemma_drop_leading_ws(r, 2);
            assert(r.subrange(2, 2) =~= Seq::<char>::empty());
            assert(spec_trim(r) =~= Seq::<char>::empty());
            assert(spec_clean(spec_trim(r)) =~= Seq::<char>::empty());
            assert(spec_sanitize(r) == sanitize_parts(true, true, Seq::<char>::empty()));
            assert(spec_sanitize(r) =~= r);
        }
    } else {
        assert(!is_space_char(core[0]));
        assert(q.len() > 0);
        assert(!is_space_char(q[0]));
        assert(!is_space_char(q[q.len() - 1]));
        assert(r.len() > 0);
        assert(r[0] == (if lead {
            ' '
        } else {
            q[0]
        }));
        assert(r[r.len() - 1] == (if trail {
            ' '
        } else {
            q[q.len() - 1]
        }));
        assert((r.len() > 0 && is_space_char(r[0])) == lead);
        assert((r.len() > 0 && is_space_char(r[r.len() - 1])) == trail);
        // The next pass trims exactly the restored boundary spaces.
        assert(forall|k: int| 0 <= k < leadv.len() ==> is_space_char(#[trigger] r[k]));
        lemma_drop_leading_ws(r, leadv.len() as int);
        assert(r.subrange(leadv.len() as int, r.len() as int) =~= q + trailv);
        let s1 = q + trailv;
        assert(forall|k: int| q.len() <= k < s1.len() ==> is_space_char(#[trigger] s1[k]));
        assert(s1[q.len() - 1] == q[q.len() - 1]);
        lemma_drop_trailing_ws(s1, q.len() as int);
        assert(s1.subrange(0, q.len() as int) =~= q);
        assert(spec_trim(r) == q);
        // The next pass's cleaning finds nothing left to change.
        assert forall|k: int| 0 <= k < q.len() implies q[k] != '{' && q[k] != '}' && q[k] != ' '
        by {
            if quote {
                if k == 0 || k == q.len() - 1 {
                } else {
                    assert(q[k] == core[k - 1]);
                }
            } else {
                assert(q[k] == core[k]);
            }
        }
        lemma_clean_id(q);
        // The quoting rule does not reapply.
        assert(!is_digit_char(q[0]));
        assert(spec_sanitize(r) == sanitize_parts(lead, trail, q));
        assert(spec_sanitize(r) == r);
    }
}

/// A syllable whose music has no notes and whose sanitized text is
/// non-blank always emits its lyric as a stanza label; a syllable with
/// at least one note never does: it emits the sanitized text itself,
/// whatever that text holds.
pub proof fn lemma_stanza_label(y: SyllableView)
    ensures
        !has_note(y.music) && spec_trim(spec_sanitize(y.text)).len() != 0 ==> spec_ly_text(y)
            == spec_stanza_wrap(spec_sanitize(y.text)),
        has_note(y.music) ==> spec_ly_text(y) == spec_sanitize(y.text),
{
}

/// Two adjacent syllables' lyric texts are joined with the hyphenation
/// token exactly when the first brings no trailing white space and the
/// second no leading white space to the junction; any boundary white
/// space there suppresses the join.
pub proof fn lemma_hyphenation(y1: SyllableView, y2: SyllableView)
    ensures
        spec_lyrics(seq![y1, y2]) == spec_ly_text(y1) + spec_join(
            spec_ly_text(y1),
            spec_ly_text(y2),
        ) + spec_ly_text(y2),
        no_trailing_ws(spec_ly_text(y1)) && no_leading_ws(spec_ly_text(y2)) ==> spec_join(
            spec_ly_text(y1),
            spec_ly_text(y2),
        ) == " -- "@,
        !(no_trailing_ws(spec_ly_text(y1)) && no_leading_ws(spec_ly_text(y2))) ==> spec_join(
            spec_ly_text(y1),
            spec_ly_text(y2),
        ) == Seq::<char>::empty(),
{
    let ys = seq![y1, y2];
    assert(ys.drop_last() =~= seq![y1]);
    assert(ys.last() == y2);
    assert(ys[0] == y1);
    assert(spec_lyrics(seq![y1]) == spec_ly_text(y1));
}

} // verus!