//! Parser and emitter for gabc, the plain-text notation for Gregorian chant.
//!
//! A gabc document is a header of `key:value;` attribute lines, a `%%`
//! marker, and a body of syllables such as `Po(eh/hi)`: a text span followed
//! by a parenthesized music span of notes, clefs, barlines and spacers.
//! [`GabcFile::new`] parses a whole document into a [`GabcFile`];
//! [`GabcFile::as_lilypond`] re-emits it as Lilypond source. [`GABCParser`]
//! gives access to the raw grammar productions for lower-level checks.

pub mod emit;
pub mod grammar;
pub mod laws;
pub mod model;
pub mod pitch;
pub mod text;

pub use emit::sanitize_ly_syllable;
pub use grammar::GABCParser;
pub use grammar::GabcError;
pub use grammar::Rule;
pub use model::GabcFile;
pub use model::Note;
pub use model::NoteElem;
pub use model::Syllable;
