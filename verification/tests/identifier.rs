use bulletin::error::BulletinError;
use bulletin::identifier::CourseIdentifier;

fn parts(text: &str) -> (String, u16, Option<char>) {
    let id = CourseIdentifier::try_from(text).unwrap();
    (id.code.clone(), id.number, id.suffix)
}

#[test]
fn plain_identifier_is_read() {
    assert_eq!(parts("MATH 140"), ("MATH".to_string(), 140, None));
}

#[test]
fn suffix_letter_is_read() {
    assert_eq!(parts("MATH 140H"), ("MATH".to_string(), 140, Some('H')));
    assert_eq!(parts("ENGL 15S"), ("ENGL".to_string(), 15, Some('S')));
}

#[test]
fn suffix_may_be_any_alphabetic_character() {
    assert_eq!(parts("MATH 140\u{e9}"), ("MATH".to_string(), 140, Some('\u{e9}')));
    assert_eq!(parts("MATH 140h"), ("MATH".to_string(), 140, Some('h')));
}

#[test]
fn digit_at_the_end_is_no_suffix() {
    assert_eq!(parts("MATH 1405"), ("MATH".to_string(), 1405, None));
}

#[test]
fn non_breaking_space_separates_too() {
    assert_eq!(parts("MATH\u{a0}140"), ("MATH".to_string(), 140, None));
    assert_eq!(
        CourseIdentifier::try_from("MATH\u{a0}140").unwrap().to_string(),
        "MATH 140"
    );
}

#[test]
fn code_ends_at_the_first_separator() {
    assert!(matches!(
        CourseIdentifier::try_from("A B 12"),
        Err(BulletinError::InvalidIdentifier)
    ));
    assert_eq!(parts(" 12"), ("".to_string(), 12, None));
}

#[test]
fn text_without_separator_is_refused() {
    assert!(matches!(
        CourseIdentifier::try_from("MATH140"),
        Err(BulletinError::InvalidIdentifier)
    ));
    assert!(matches!(
        CourseIdentifier::try_from(""),
        Err(BulletinError::InvalidIdentifier)
    ));
}

#[test]
fn text_with_nothing_behind_the_separator_is_refused() {
    assert!(matches!(
        CourseIdentifier::try_from("MATH "),
        Err(BulletinError::InvalidIdentifier)
    ));
}

#[test]
fn text_without_a_number_is_refused() {
    for text in ["MATH ABC", "MATH H", "MATH 14 0", "MATH 1.5", "MATH -1", "MATH +", "MATH 140HH"] {
        assert!(
            matches!(
                CourseIdentifier::try_from(text),
                Err(BulletinError::InvalidIdentifier)
            ),
            "{}",
            text
        );
    }
}

#[test]
fn number_must_fit_sixteen_bits() {
    assert_eq!(parts("MATH 65535"), ("MATH".to_string(), 65535, None));
    assert_eq!(parts("MATH 0"), ("MATH".to_string(), 0, None));
    for text in ["MATH 65536", "MATH 99999", "MATH 100000", "MATH 4294967296"] {
        assert!(
            matches!(
                CourseIdentifier::try_from(text),
                Err(BulletinError::InvalidIdentifier)
            ),
            "{}",
            text
        );
    }
}

#[test]
fn plus_sign_and_leading_zeros_are_read() {
    assert_eq!(parts("MATH +140"), ("MATH".to_string(), 140, None));
    assert_eq!(parts("MATH 007"), ("MATH".to_string(), 7, None));
    assert_eq!(parts("MATH 0000065535H"), ("MATH".to_string(), 65535, Some('H')));
}

#[test]
fn number_is_read_as_the_standard_library_reads_it() {
    let samples = [
        "0", "1", "9", "10", "140", "65535", "65536", "70000", "+1", "+", "-1", "", "1a", "a1",
        "00", "0123", "+0", "++1", "1+", " 1", "1 ", "655350", "99999", "١٢",
    ];
    for sample in samples {
        let expected = sample.parse::<u16>().ok();
        let got = CourseIdentifier::try_from(format!("X {}", sample).as_str())
            .ok()
            .filter(|id| id.suffix.is_none())
            .map(|id| id.number);
        let last_is_letter = sample.chars().last().map_or(false, |c| c.is_alphabetic());
        if !last_is_letter {
            assert_eq!(got, expected, "{:?}", sample);
        }
    }
}

#[test]
fn reading_then_printing_gives_the_text_back() {
    for text in ["MATH 140", "MATH 140H", "CMPSC 465", "A 0", "ENGL 15S", "X 65535", "BB H 101"] {
        match CourseIdentifier::try_from(text) {
            Ok(id) => assert_eq!(id.to_string(), text),
            Err(_) => assert_eq!(text, "BB H 101"),
        }
    }
}

#[test]
fn printing_writes_code_number_and_suffix() {
    let id = CourseIdentifier { code: "PHYS".to_string(), number: 211, suffix: None };
    assert_eq!(id.to_string(), "PHYS 211");
    let id = CourseIdentifier { code: "PHYS".to_string(), number: 7, suffix: Some('W') };
    assert_eq!(id.to_string(), "PHYS 7W");
    let id = CourseIdentifier { code: "Q".to_string(), number: 65535, suffix: None };
    assert_eq!(id.to_string(), "Q 65535");
    let id = CourseIdentifier { code: "Q".to_string(), number: 0, suffix: None };
    assert_eq!(id.to_string(), "Q 0");
    let id = CourseIdentifier { code: "Q".to_string(), number: 1000, suffix: None };
    assert_eq!(id.to_string(), "Q 1000");
}

#[test]
fn identifiers_are_compared_by_their_parts() {
    let a = CourseIdentifier::try_from("MATH 140").unwrap();
    let b = CourseIdentifier::try_from("MATH 0140").unwrap();
    let c = CourseIdentifier::try_from("MATH 140H").unwrap();
    let d = CourseIdentifier::try_from("STAT 140").unwrap();
    assert!(a.same_as(&b));
    assert!(!a.same_as(&c));
    assert!(!a.same_as(&d));
    assert!(a.same_as(&a.clone()));
}

#[test]
fn reading_goes_by_what_it_is_told_of_the_last_character() {
    let text: Vec<char> = "MATH 140H".chars().collect();
    let id = CourseIdentifier::read(&text, true).unwrap();
    assert_eq!((id.code.as_str(), id.number, id.suffix), ("MATH", 140, Some('H')));
    assert!(matches!(
        CourseIdentifier::read(&text, false),
        Err(BulletinError::InvalidIdentifier)
    ));
    let text: Vec<char> = "MATH 140".chars().collect();
    let id = CourseIdentifier::read(&text, false).unwrap();
    assert_eq!((id.code.as_str(), id.number, id.suffix), ("MATH", 140, None));
    let id = CourseIdentifier::read(&text, true).unwrap();
    assert_eq!((id.code.as_str(), id.number, id.suffix), ("MATH", 14, Some('0')));
    let id = CourseIdentifier::from_chars(&text).unwrap();
    assert_eq!((id.code.as_str(), id.number, id.suffix), ("MATH", 140, None));
}

#[test]
fn every_printed_form_is_read_and_printed_as_it_stands() {
    for number in 0..=u16::MAX {
        for suffix in [None, Some('H'), Some('w'), Some('\u{e9}')] {
            let id = CourseIdentifier { code: "CMPSC".to_string(), number, suffix };
            let printed = id.to_string();
            let read = CourseIdentifier::try_from(printed.as_str()).unwrap();
            assert!(read.same_as(&id));
            assert_eq!(read.to_string(), printed);
        }
    }
}
