//! The document model: a parsed gabc file is a list of header attributes
//! and a list of syllables, each syllable a text span plus a sequence of
//! music elements. Every type has a mathematical view over `Seq<char>`,
//! which the parsing and emission contracts are stated against.

use vstd::prelude::*;

verus! {

/// A gabc note.
#[derive(Debug)]
pub struct Note {
    /// Entire prefix of the note (usually empty, at most a leading dash)
    pub prefix: String,
    /// Main character of the note: its position in the gabc staff (a-m)
    pub position: char,
    /// Entire suffix string of the note, including shape indicators and
    /// rhythmic signs
    pub suffix: String,
    /// Clef governing this note in its original context
    pub current_clef: String,
}

/// Mathematical view of a [`Note`].
#[verifier::ext_equal]
pub struct NoteView {
    pub prefix: Seq<char>,
    pub position: char,
    pub suffix: Seq<char>,
    pub current_clef: Seq<char>,
}

impl View for Note {
    type V = NoteView;

    open spec fn view(&self) -> NoteView {
        NoteView {
            prefix: self.prefix@,
            position: self.position,
            suffix: self.suffix@,
            current_clef: self.current_clef@,
        }
    }
}

/// Any element that can appear in a gabc music string.
#[derive(Debug)]
pub enum NoteElem {
    /// A gabc spacer, e.g. "/"
    Spacer(String),
    /// A gabc bar separator, e.g. "::"
    Barline(String),
    /// A `Note` struct
    Note(Note),
}

/// Mathematical view of a [`NoteElem`].
#[verifier::ext_equal]
pub enum NoteElemView {
    Spacer(Seq<char>),
    Barline(Seq<char>),
    Note(NoteView),
}

impl View for NoteElem {
    type V = NoteElemView;

    open spec fn view(&self) -> NoteElemView {
        match self {
            NoteElem::Spacer(s) => NoteElemView::Spacer(s@),
            NoteElem::Barline(s) => NoteElemView::Barline(s@),
            NoteElem::Note(n) => NoteElemView::Note(n@),
        }
    }
}

/// A gabc syllable with text and music, e.g. "Po(eh/hi)".
#[derive(Debug)]
pub struct Syllable {
    /// Text part of the syllable
    pub text: String,
    /// Music part of the syllable
    pub music: Vec<NoteElem>,
}

/// Mathematical view of a [`Syllable`].
#[verifier::ext_equal]
pub struct SyllableView {
    pub text: Seq<char>,
    pub music: Seq<NoteElemView>,
}

/// The views of a vector of music elements, in order.
pub open spec fn music_view(m: Seq<NoteElem>) -> Seq<NoteElemView> {
    Seq::new(m.len(), |i: int| m[i]@)
}

impl View for Syllable {
    type V = SyllableView;

    open spec fn view(&self) -> SyllableView {
        SyllableView { text: self.text@, music: music_view(self.music@) }
    }
}

/// An entire gabc file.
#[derive(Debug)]
pub struct GabcFile {
    /// This file's attributes, e.g. "name: Populus Sion", as key/value tuples
    pub attributes: Vec<(String, String)>,
    /// This file's `Syllable`s
    pub syllables: Vec<Syllable>,
}

/// Mathematical view of a [`GabcFile`].
#[verifier::ext_equal]
pub struct GabcFileView {
    pub attributes: Seq<(Seq<char>, Seq<char>)>,
    pub syllables: Seq<SyllableView>,
}

/// The views of a vector of attribute pairs, in order.
pub open spec fn attrs_view(a: Seq<(String, String)>) -> Seq<(Seq<char>, Seq<char>)> {
    Seq::new(a.len(), |i: int| (a[i].0@, a[i].1@))
}

/// The views of a vector of syllables, in order.
pub open spec fn syllables_view(s: Seq<Syllable>) -> Seq<SyllableView> {
    Seq::new(s.len(), |i: int| s[i]@)
}

impl View for GabcFile {
    type V = GabcFileView;

    open spec fn view(&self) -> GabcFileView {
        GabcFileView {
            attributes: attrs_view(self.attributes@),
            syllables: syllables_view(self.syllables@),
        }
    }
}

} // verus!
