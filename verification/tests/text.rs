use bulletin::text::{
    contains, find_first, find_last, from_chars, is_whitespace, normalize, replace_chars,
    split_chars, starts_with, to_ascii_upper, to_chars, trim_all_chars, trim_chars, ReplaceMany,
    TrimAll,
};

fn chars(s: &str) -> Vec<char> {
    s.chars().collect()
}

fn text(v: &[char]) -> String {
    v.iter().collect()
}

#[test]
fn trim_all_removes_needless_spaces() {
    assert_eq!("Hello world", "   Hello   world    ".trim_all());
    assert_eq!("", "     ".trim_all());
    assert_eq!("", "".trim_all());
    assert_eq!("a", "a".trim_all());
    assert_eq!("a b c", "a b  c".trim_all());
}

#[test]
fn trim_all_trims_every_whitespace_and_collapses_spaces_only() {
    assert_eq!("a\tb", "\n a\tb \u{a0}".trim_all());
    assert_eq!("a \t b", " a  \t  b ".trim_all());
    assert_eq!("MATH\u{a0}140", " MATH\u{a0}140 ".trim_all());
}

#[test]
fn trim_all_is_what_the_standard_library_gives() {
    for s in ["", " ", "a", "  a  b   c ", "\t a \t", "a\u{a0} b", "\u{2003}x  y\u{3000}", " \n "] {
        let expected = s
            .trim()
            .split(' ')
            .filter(|p| !p.is_empty())
            .collect::<Vec<&str>>()
            .join(" ");
        assert_eq!(s.trim_all(), expected, "{:?}", s);
    }
}

#[test]
fn replace_many_makes_each_replacement() {
    assert_eq!("Goodbye world", "Hello world".replace_many(&[("Hello", "Goodbye")]));
    assert_eq!("c", "a".replace_many(&[("a", "b"), ("b", "c")]));
    assert_eq!("Hello", "Hello".replace_many(&[]));
}

#[test]
fn replace_is_what_the_standard_library_gives() {
    let cases = [
        ("abcabc", "bc", "X"),
        ("aaaa", "aa", "b"),
        ("aaa", "aa", "b"),
        ("abc", "", "-"),
        ("", "", "-"),
        ("", "a", "b"),
        ("abc", "abcd", "x"),
        ("a,b;c", ",", " AND"),
        ("PREREQ PREREQ ", "PREREQ ", "PREREQUISITE "),
        ("xay", "a", ""),
    ];
    for (s, from, to) in cases {
        assert_eq!(
            text(&replace_chars(&chars(s), &chars(from), &chars(to))),
            s.replace(from, to),
            "{:?} {:?} {:?}",
            s,
            from,
            to
        );
    }
}

#[test]
fn split_is_what_the_standard_library_gives() {
    let cases = [
        ("a, b, c", ", "),
        ("", ","),
        ("a", ","),
        ("a,", ","),
        (",a", ","),
        (",,", ","),
        ("aaa", "aa"),
        ("University Park, World Campus", ", "),
    ];
    for (s, pattern) in cases {
        let got: Vec<String> =
            split_chars(&chars(s), &chars(pattern)).iter().map(|p| text(p)).collect();
        let expected: Vec<String> = s.split(pattern).map(String::from).collect();
        assert_eq!(got, expected, "{:?} {:?}", s, pattern);
    }
}

#[test]
fn trim_is_what_the_standard_library_gives() {
    for s in ["", " ", "  a b  ", "\t\na\r\n", "\u{a0}a\u{a0}", "a", "\u{85}x\u{2028}", "x\u{200b}"] {
        assert_eq!(text(&trim_chars(&chars(s))), s.trim(), "{:?}", s);
    }
}

#[test]
fn whitespace_is_what_the_standard_library_calls_whitespace() {
    let mut code: u32 = 0;
    while code <= 0x10FFFF {
        if let Some(c) = char::from_u32(code) {
            assert_eq!(is_whitespace(c), c.is_whitespace(), "{:x}", code);
        }
        code += 1;
    }
}

#[test]
fn upper_case_changes_ascii_letters_only() {
    let mut code: u32 = 0;
    while code <= 0x10FFFF {
        if let Some(c) = char::from_u32(code) {
            assert_eq!(to_ascii_upper(c), c.to_ascii_uppercase(), "{:x}", code);
        }
        code += 1;
    }
}

#[test]
fn characters_and_strings_convert_both_ways() {
    for s in ["", "abc", "MATH\u{a0}140", "\u{e9}\u{4e2d}\u{1f600}"] {
        assert_eq!(to_chars(s), chars(s));
        assert_eq!(from_chars(&chars(s)), s);
    }
}

#[test]
fn patterns_are_found() {
    let s = chars("a, b, c");
    assert_eq!(find_first(&s, &chars(", ")), Some(1));
    assert_eq!(find_last(&s, &chars(", ")), Some(4));
    assert_eq!(find_first(&s, &chars("x")), None);
    assert_eq!(find_last(&s, &chars("x")), None);
    assert_eq!(find_first(&s, &chars("")), Some(0));
    assert_eq!(find_last(&s, &chars("")), Some(7));
    assert!(contains(&s, &chars("b,")));
    assert!(!contains(&s, &chars("b ,")));
    assert!(starts_with(&s, &chars("a,")));
    assert!(!starts_with(&s, &chars(",")));
    assert!(!starts_with(&chars("a"), &chars("ab")));
}

#[test]
fn normal_form_is_upper_case_with_keywords() {
    assert_eq!(
        normalize("Prerequisite: MATH 140; MATH 141"),
        "PREREQUISITE: MATH 140 OR MATH 141"
    );
    assert_eq!(normalize("MATH 140, MATH 141"), "MATH 140 AND MATH 141");
    assert_eq!(normalize("  math   140  "), "MATH 140");
}

#[test]
fn normal_form_mends_labels_and_misspellings() {
    assert_eq!(normalize("Concurrent Courses: PHYS 211"), "CONCURRENT: PHYS 211");
    assert_eq!(
        normalize("Recommended Preparations: STAT 200"),
        "RECOMMENDED PREPARATION: STAT 200"
    );
    assert_eq!(normalize("Prerquisite: A 1"), "PREREQUISITE: A 1");
    assert_eq!(normalize("Prerequiste: A 1"), "PREREQUISITE: A 1");
    assert_eq!(normalize("Prequisite: A 1"), "PREREQUISITE: A 1");
    assert_eq!(normalize("Prereq A 1"), "PREREQUISITE A 1");
}

#[test]
fn normal_form_of_a_normal_form_is_itself() {
    for s in [
        "Prerequisite: MATH 140; MATH 141",
        "Concurrent Courses: PHYS 211, PHYS 212",
        "Prereq A 1",
        "  fifth   semester standing ",
    ] {
        let once = normalize(s);
        assert_eq!(normalize(&once), once);
    }
}
