use gabc_parser::GABCParser;
use gabc_parser::GabcFile;
use gabc_parser::Note;
use gabc_parser::Rule;
use gabc_parser::Syllable;

fn file_text() -> &'static str {
    "office-part:Tractus;\nmode:8;\n%%\n(c3) Pó(eh/hi)pu(h)lus(h) Si(hi)on,(hgh.) *(;) ec(hihi)ce(e.) (::)"
}

fn expected_lyrics() -> &'static str {
    " Pó -- pu -- lus Si -- on, \\set stanza = \" *\"  ec -- ce  "
}

fn expected_notes() -> &'static str {
    "\ng(c' c' d')\nc'\nc'\nc'(d')\nc'(b c')\n\\divisioMaior\nc'(d' c' d')\ng\n\\finalis\n"
}

#[test]
fn new_file_works() {
    let g = GabcFile::new(file_text()).unwrap();
    assert_eq!("office-part", g.attributes[0].0);
    assert_eq!(2, g.attributes.len());
    assert_eq!(" Pó", g.syllables[1].text);
}

#[test]
fn test_file_text_and_lyrics() {
    let g = GabcFile::new(file_text()).unwrap();
    assert_eq!(g.ly_lyrics(), expected_lyrics());
    assert_eq!(g.ly_notes(), expected_notes());
}

#[test]
fn test_test_absolute_pitch() {
    let note = Note::new("d", "c1").unwrap();
    assert_eq!("c'", note.absolute_pitch());
}

#[test]
fn new_syllable_works() {
    let g = Syllable::new("Pó(eh/hi)", "c3").unwrap();
    assert_eq!(g.text, "Pó");
    assert_eq!(g.music.len(), 5);
}

#[test]
fn test_test_syllable_to_ly() {
    let break_syllable = Syllable::new("*(;)", "c1").unwrap();
    assert_eq!("\\divisioMaior", break_syllable.ly_notes());
    assert_eq!(" \\set stanza = \"*\" ", break_syllable.ly_text());
    let num_syllable = Syllable::new(" 3. Po(cde)", "c3").unwrap();
    assert_eq!("e(f g)", num_syllable.ly_notes());
    assert_eq!(" \"3._Po\"", num_syllable.ly_text());
}

#[test]
fn test_raw_parsing() {
    let good_file = GABCParser::parse(Rule::file, file_text());
    assert!(good_file.is_ok());
    let bad_file = GABCParser::parse(Rule::file, "this is not a gabc file");
    assert!(bad_file.is_err());
    let good_syll = GABCParser::parse(Rule::syllable, "Pó(eh/hi)");
    assert!(good_syll.is_ok());
    let bad_syll = GABCParser::parse(Rule::syllable, "this is not a syllable");
    assert!(bad_syll.is_err());
    let good_note = GABCParser::parse(Rule::note, "e..");
    assert!(good_note.is_ok());
    let bad_note = GABCParser::parse(Rule::note, "this is not a note");
    assert!(bad_note.is_err());
}
