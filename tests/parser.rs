use maltese_speech::parser::{parse, LetterLiteral, ParseError, COMBINING_DOT};
use std::path::{Path, PathBuf};

#[test]
fn test_empty_input() {
    let result = parse("");
    assert!(result.is_err());
    if let Err(e) = result {
        assert!(e.to_string().contains("Input string is empty"));
    }
}

#[test]
fn test_whitespace_only() {
    let result = parse("  \t\n");
    assert!(result.is_err());
    if let Err(e) = result {
        assert!(e.to_string().contains("No valid letters"));
    }
}

#[test]
fn test_basic_letters() {
    let result = parse("abċ").unwrap();
    assert_eq!(result.len(), 3);

    assert_eq!(Path::new(&result[0].pronunciation), Path::new("sounds/a.wav"));
    assert_eq!(Path::new(&result[1].pronunciation), Path::new("sounds/b.wav"));
}

#[test]
fn test_special_letters() {
    let result = parse("ċġħż").unwrap();
    assert_eq!(result.len(), 4);

    assert_eq!(Path::new(&result[0].pronunciation), Path::new("sounds/c-dot.wav"));
    assert_eq!(Path::new(&result[1].pronunciation), Path::new("sounds/g-dot.wav"));
    assert_eq!(Path::new(&result[2].pronunciation), Path::new("sounds/h-bar.wav"));
    assert_eq!(Path::new(&result[3].pronunciation), Path::new("sounds/z-dot.wav"));
}

#[test]
fn test_digraphs() {
    let result = parse("ie għ").unwrap();

    println!("word: {:?}", result);
    assert_eq!(result.len(), 2);

    assert_eq!(Path::new(&result[0].pronunciation), Path::new("sounds/ie.wav"));
    assert_eq!(Path::new(&result[1].pronunciation), Path::new("sounds/gh.wav"));
}

#[test]
fn test_case_insensitivity() {
    let result = parse("ABĊdEf").unwrap();
    assert_eq!(result.len(), 6);

    assert_eq!(Path::new(&result[0].pronunciation), Path::new("sounds/a.wav"));
    assert_eq!(Path::new(&result[1].pronunciation), Path::new("sounds/b.wav"));
    assert_eq!(Path::new(&result[2].pronunciation), Path::new("sounds/c-dot.wav"));
    assert_eq!(Path::new(&result[3].pronunciation), Path::new("sounds/d.wav"));
    assert_eq!(Path::new(&result[4].pronunciation), Path::new("sounds/e.wav"));
    assert_eq!(Path::new(&result[5].pronunciation), Path::new("sounds/f.wav"));
}

#[test]
fn test_with_spaces() {
    let result = parse("m a l t i").unwrap();
    assert_eq!(result.len(), 5);

    let expected_paths = [
        Path::new("sounds/m.wav"),
        Path::new("sounds/a.wav"),
        Path::new("sounds/l.wav"),
        Path::new("sounds/t.wav"),
        Path::new("sounds/i.wav"),
    ];

    for (i, expected_path) in expected_paths.iter().enumerate() {
        assert_eq!(&Path::new(&result[i].pronunciation), expected_path);
    }
}

#[test]
fn test_maltese_word() {
    let result = parse("Bonġu").unwrap();
    assert_eq!(result.len(), 5);

    let expected_paths = [
        Path::new("sounds/b.wav"),
        Path::new("sounds/o.wav"),
        Path::new("sounds/n.wav"),
        Path::new("sounds/g-dot.wav"),
        Path::new("sounds/u.wav"),
    ];

    for (i, expected_path) in expected_paths.iter().enumerate() {
        assert_eq!(&Path::new(&result[i].pronunciation), expected_path);
    }
}

#[test]
fn test_unknown_letter() {
    let result = parse("abc!d");
    assert!(result.is_err());
    if let Err(e) = result {
        assert!(e.to_string().contains("Unknown letter"));
    }
}

#[test]
fn test_get_sound_path() {
    let letters = [
        (LetterLiteral::A, "a.wav"),
        (LetterLiteral::B, "b.wav"),
        (LetterLiteral::CDot, "c-dot.wav"),
        (LetterLiteral::D, "d.wav"),
        (LetterLiteral::E, "e.wav"),
        (LetterLiteral::F, "f.wav"),
        (LetterLiteral::G, "g.wav"),
        (LetterLiteral::GDot, "g-dot.wav"),
        (LetterLiteral::HBar, "h-bar.wav"),
        (LetterLiteral::H, "h.wav"),
        (LetterLiteral::GHBar, "gh.wav"),
        (LetterLiteral::I, "i.wav"),
        (LetterLiteral::J, "j.wav"),
        (LetterLiteral::IE, "ie.wav"),
        (LetterLiteral::K, "k.wav"),
        (LetterLiteral::L, "l.wav"),
        (LetterLiteral::M, "m.wav"),
        (LetterLiteral::N, "n.wav"),
        (LetterLiteral::O, "o.wav"),
        (LetterLiteral::P, "p.wav"),
        (LetterLiteral::Q, "q.wav"),
        (LetterLiteral::R, "r.wav"),
        (LetterLiteral::S, "s.wav"),
        (LetterLiteral::T, "t.wav"),
        (LetterLiteral::U, "u.wav"),
        (LetterLiteral::V, "v.wav"),
        (LetterLiteral::W, "w.wav"),
        (LetterLiteral::X, "x.wav"),
        (LetterLiteral::Y, "y.wav"),
        (LetterLiteral::ZDot, "z-dot.wav"),
        (LetterLiteral::Z, "z.wav"),
    ];

    for (letter, expected_filename) in letters.iter() {
        let path = PathBuf::from(letter.get_sound_path());
        let expected_path = PathBuf::from("sounds").join(expected_filename);
        assert_eq!(path, expected_path);
    }
}

fn letters_of(text: &str) -> Vec<LetterLiteral> {
    parse(text).unwrap().iter().map(|l| l.letter).collect()
}

#[test]
fn combining_dot_makes_one_c_dot() {
    let text = format!("c{}", COMBINING_DOT);
    assert_eq!(letters_of(&text), vec![LetterLiteral::CDot]);
    let text = format!("C{}a", COMBINING_DOT);
    assert_eq!(letters_of(&text), vec![LetterLiteral::CDot, LetterLiteral::A]);
}

#[test]
fn ie_digraph_from_either_side() {
    assert_eq!(letters_of("ei"), vec![LetterLiteral::IE]);
    assert_eq!(letters_of("ie"), vec![LetterLiteral::IE]);
    assert_eq!(letters_of("EI"), vec![LetterLiteral::IE]);
    assert_eq!(letters_of("iE"), vec![LetterLiteral::IE]);
}

#[test]
fn digraph_is_taken_once() {
    assert_eq!(letters_of("iei"), vec![LetterLiteral::IE, LetterLiteral::I]);
    assert_eq!(letters_of("Għ"), vec![LetterLiteral::GHBar]);
    assert_eq!(letters_of("gĦa"), vec![LetterLiteral::GHBar, LetterLiteral::A]);
    assert_eq!(letters_of("g h"), vec![LetterLiteral::G, LetterLiteral::H]);
}

#[test]
fn upper_and_lower_case_segment_alike() {
    let upper = letters_of("ABĊdEf");
    let lower = letters_of("abċdef");
    assert_eq!(upper, lower);
    assert_eq!(
        upper,
        vec![
            LetterLiteral::A,
            LetterLiteral::B,
            LetterLiteral::CDot,
            LetterLiteral::D,
            LetterLiteral::E,
            LetterLiteral::F
        ]
    );
}

#[test]
fn rejects_empty_blank_and_unknown() {
    assert!(matches!(parse(""), Err(ParseError::InvalidInput(m)) if m == "Input string is empty"));
    assert!(matches!(parse("   "), Err(ParseError::InvalidInput(m)) if m == "No valid letters found"));
    match parse("ab!d") {
        Err(ParseError::UnknownLetter(m)) => assert_eq!(m, "!"),
        other => panic!("unexpected result: {:?}", other),
    }
    let e = parse("ab!d").unwrap_err();
    assert_eq!(e.to_string(), "Unknown letter sequence: !");
}

#[test]
fn plain_c_is_unknown() {
    match parse("abc") {
        Err(ParseError::UnknownLetter(m)) => assert_eq!(m, "c"),
        other => panic!("unexpected result: {:?}", other),
    }
    match parse("Ca") {
        Err(ParseError::UnknownLetter(m)) => assert_eq!(m, "C"),
        other => panic!("unexpected result: {:?}", other),
    }
    let e = parse("").unwrap_err();
    assert_eq!(e.to_string(), "Invalid input: Input string is empty");
}

#[test]
fn whitespace_of_every_kind_is_skipped() {
    assert_eq!(
        letters_of("\ta\r\nb "),
        vec![LetterLiteral::A, LetterLiteral::B]
    );
}
