use gabc_parser::sanitize_ly_syllable;
use gabc_parser::GABCParser;
use gabc_parser::GabcError;
use gabc_parser::GabcFile;
use gabc_parser::Note;
use gabc_parser::Rule;
use gabc_parser::Syllable;

#[test]
fn pitch_ladder_examples() {
    assert_eq!("c'", Note::new("d", "c1").unwrap().absolute_pitch());
    assert_eq!("g'", Note::new("h", "c1").unwrap().absolute_pitch());
    assert_eq!("g", Note::new("e", "c3").unwrap().absolute_pitch());
    assert_eq!("d'", Note::new("i", "c3").unwrap().absolute_pitch());
    assert_eq!("a,", Note::new("a", "c4").unwrap().absolute_pitch());
    assert_eq!("d", Note::new("a", "f4").unwrap().absolute_pitch());
    assert_eq!("a'''", Note::new("m", "f1").unwrap().absolute_pitch());
}

#[test]
fn pitch_position_case_insensitive() {
    assert_eq!("g'", Note::new("H..", "c1").unwrap().absolute_pitch());
}

#[test]
fn note_parts() {
    let n = Note::new("-h..", "c2").unwrap();
    assert_eq!(n.prefix, "-");
    assert_eq!(n.position, 'h');
    assert_eq!(n.suffix, "..");
    assert_eq!(n.current_clef, "c2");
}

#[test]
fn empty_music_emits_nothing() {
    let y = Syllable::new("x()", "c1").unwrap();
    assert_eq!(y.music.len(), 0);
    assert_eq!(y.ly_notes(), "");
}

#[test]
fn single_element_no_tie() {
    let y = Syllable::new("(h)", "c1").unwrap();
    assert_eq!(y.text, "");
    assert_eq!(y.ly_notes(), "g'");
}

#[test]
fn tie_group_with_spacer() {
    let y = Syllable::new("Pó(eh/hi)", "c3").unwrap();
    assert_eq!(y.ly_notes(), "g(c' c' d')");
}

#[test]
fn spacer_as_second_element() {
    let y = Syllable::new("(e/h)", "c1").unwrap();
    assert_eq!(y.ly_notes(), "d'( g')");
}

#[test]
fn barline_fallback() {
    let y = Syllable::new("(,)", "c1").unwrap();
    assert_eq!(y.ly_notes(), "\\divisioMinima");
    let y2 = Syllable::new("('::)", "c1").unwrap();
    assert_eq!(y2.ly_notes(), "\\divisioMinima(\\finalis)");
}

#[test]
fn sanitize_once() {
    assert_eq!(sanitize_ly_syllable(" 3. Po"), " \"3._Po\"");
    assert_eq!(sanitize_ly_syllable("{a b}"), "a_b");
    assert_eq!(sanitize_ly_syllable(" * "), " * ");
    assert_eq!(sanitize_ly_syllable(""), "");
}

#[test]
fn sanitize_twice_is_sanitize_once() {
    for s in [" 3. Po", "{a b}", " * ", "", "Pó", " ec", "on,", "9", "{3}4"] {
        let once = sanitize_ly_syllable(s);
        let twice = sanitize_ly_syllable(&once);
        assert_eq!(once, twice);
    }
}

#[test]
fn stanza_label_rule() {
    let no_notes = Syllable::new("*(;)", "c1").unwrap();
    assert_eq!(no_notes.ly_text(), " \\set stanza = \"*\" ");
    let with_note = Syllable::new("*(h)", "c1").unwrap();
    assert_eq!(with_note.ly_text(), "*");
    let blank = Syllable::new(" (;)", "c1").unwrap();
    assert_eq!(blank.ly_text(), "  ");
}

#[test]
fn hyphenation_rule() {
    let joined = GabcFile::new("%%\nPo(e)pu(f)").unwrap();
    assert_eq!(joined.ly_lyrics(), "Po -- pu");
    let split = GabcFile::new("%%\nPo(e) pu(f)").unwrap();
    assert_eq!(split.ly_lyrics(), "Po pu");
}

#[test]
fn parse_error_on_bad_input() {
    let r = GabcFile::new("this is not a gabc file");
    assert!(r.is_err());
    assert_eq!(r.unwrap_err(), GabcError::Rejected);
}

#[test]
fn empty_body() {
    let g = GabcFile::new("%%\n").unwrap();
    assert_eq!(g.syllables.len(), 0);
    assert_eq!(g.attributes.len(), 0);
    assert_eq!(g.ly_lyrics(), "");
    assert_eq!(g.ly_notes(), "");
}

#[test]
fn repeated_attribute_keys_kept_in_order() {
    let g = GabcFile::new("a:1;\na:2;\n%%\n").unwrap();
    assert_eq!(g.attributes.len(), 2);
    assert_eq!(g.attributes[0], ("a".to_string(), "1".to_string()));
    assert_eq!(g.attributes[1], ("a".to_string(), "2".to_string()));
}

#[test]
fn resolvable_needs_a_clef() {
    let no_clef = GabcFile::new("%%\nPo(e)").unwrap();
    assert!(!no_clef.pitches_resolvable());
    let with_clef = GabcFile::new("%%\n(c1) Po(e)").unwrap();
    assert!(with_clef.pitches_resolvable());
}

#[test]
fn clef_carries_across_syllables() {
    let g = GabcFile::new("%%\n(c1) a(h)b(f2) c(h)").unwrap();
    assert_eq!(g.syllables[1].ly_notes(), "g'");
    assert_eq!(g.syllables[3].ly_notes(), "a'");
}

#[test]
fn rule_level_parsing() {
    assert!(GABCParser::parse(Rule::clef, "c3").is_ok());
    assert!(GABCParser::parse(Rule::clef, "c5").is_err());
    assert!(GABCParser::parse(Rule::barline, "::").is_ok());
    assert!(GABCParser::parse(Rule::barline, ":::").is_err());
    assert!(GABCParser::parse(Rule::spacer, "/").is_ok());
    assert!(GABCParser::parse(Rule::spacer, "//").is_err());
    assert!(GABCParser::parse(Rule::attribute, "name:Test;\n").is_ok());
    assert!(GABCParser::parse(Rule::attribute, "name Test").is_err());
}

#[test]
fn end_to_end_lilypond() {
    let g = GabcFile::new("office-part:Tractus;\nmode:8;\n%%\n(c3) Pó(eh/hi)").unwrap();
    assert_eq!("office-part", g.attributes[0].0);
    assert_eq!("Tractus", g.attributes[0].1);
    assert_eq!(g.syllables[1].ly_notes(), "g(c' c' d')");
    assert!(g.pitches_resolvable());
    let head = "\\include \"gregorian.ly\"\n\nchant = \\absolute { \\transpose c c' {\n  \\set Score.timing = ##f\n  ";
    let mid = "\n}}\n\nverba = \\lyricmode {\n  ";
    let tail = "\n}\n\n\\score {\n  \\new Staff <<\n    \\new Voice = \"melody\" \\chant\n    \\new Lyrics = \"one\" \\lyricsto melody \\verba\n  >>\n  \\layout {\n    \\context {\n      \\Staff\n      \\remove \"Time_signature_engraver\"\n      \\remove \"Bar_engraver\"\n      \\hide Stem\n    }\n    \\context {\n      \\Voice\n      \\override Stem.length = #0\n    }\n    \\context {\n      \\Score\n      barAlways = ##t\n    }\n  }\n}";
    let expected = format!("{}{}{}{}{}", head, "\ng(c' c' d')\n", mid, " Pó", tail);
    assert_eq!(g.as_lilypond(), expected);
}
