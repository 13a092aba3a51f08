use bulletin::error::BulletinError;
use bulletin::tree::{
    tokenize, CourseRequirementNode, CourseRequirementTree, RequirementRow, RequirementToken,
};

fn shape(rows: &[RequirementRow]) -> Vec<(String, Option<usize>)> {
    rows.iter()
        .map(|row| {
            let label = match &row.node {
                CourseRequirementNode::AND => "&".to_string(),
                CourseRequirementNode::OR => "|".to_string(),
                CourseRequirementNode::COURSE(course) => course.to_string(),
            };
            (label, row.parent)
        })
        .collect()
}

#[test]
fn two_courses_joined_by_and() {
    let tree = CourseRequirementTree::try_from("{MATH 140}&{MATH 141}").unwrap();
    assert_eq!(
        shape(&tree.rows()),
        vec![
            ("&".to_string(), None),
            ("MATH 140".to_string(), Some(0)),
            ("MATH 141".to_string(), Some(0)),
        ]
    );
    assert_eq!(tree.to_string(), "MATH 140 AND MATH 141");
}

#[test]
fn or_group_under_and_root() {
    let tree = CourseRequirementTree::try_from("({MATH 140}|{MATH 141})&{PHYS 211}").unwrap();
    assert_eq!(
        shape(&tree.rows()),
        vec![
            ("&".to_string(), None),
            ("|".to_string(), Some(0)),
            ("MATH 140".to_string(), Some(1)),
            ("MATH 141".to_string(), Some(1)),
            ("PHYS 211".to_string(), Some(0)),
        ]
    );
    assert_eq!(tree.to_string(), "(MATH 140 OR MATH 141) AND PHYS 211");
}

#[test]
fn unmatched_closing_brace_is_refused() {
    let result = CourseRequirementTree::try_from("{MATH 140}}");
    assert!(matches!(result, Err(BulletinError::UnmatchedBrace)));
}

fn rendered(text: &str) -> String {
    CourseRequirementTree::try_from(text).unwrap().to_string()
}

fn token_names(text: &str) -> Vec<String> {
    let chars: Vec<char> = text.chars().collect();
    tokenize(&chars)
        .unwrap()
        .iter()
        .map(|token| match token {
            RequirementToken::Open => "(".to_string(),
            RequirementToken::Close => ")".to_string(),
            RequirementToken::Or => "|".to_string(),
            RequirementToken::And => "&".to_string(),
            RequirementToken::Course(t) => t.iter().collect(),
        })
        .collect()
}

#[test]
fn unmatched_closing_brace_gives_no_partial_tree() {
    for text in ["}", "{MATH 140}}", "({MATH 140}|{MATH 141})}&{PHYS 211}", "{A 1}&}{B 2}"] {
        assert!(
            matches!(
                CourseRequirementTree::try_from(text),
                Err(BulletinError::UnmatchedBrace)
            ),
            "{}",
            text
        );
    }
}

#[test]
fn unmatched_brace_comes_before_a_bad_course() {
    assert!(matches!(
        CourseRequirementTree::try_from("{MATH}&{PHYS 211}}"),
        Err(BulletinError::UnmatchedBrace)
    ));
}

#[test]
fn course_text_that_is_no_identifier_is_refused() {
    for text in ["{MATH}", "{}", "{MATH 140}&{PHYS}", "{(}", "{MATH 140 AND}"] {
        assert!(
            matches!(
                CourseRequirementTree::try_from(text),
                Err(BulletinError::InvalidIdentifier)
            ),
            "{}",
            text
        );
    }
}

#[test]
fn text_is_cut_into_five_kinds_of_tokens() {
    assert_eq!(
        token_names("([{ MATH 140 }|x{MATH 141}])&"),
        vec!["(", "(", "MATH 140", "|", "MATH 141", ")", ")", "&"]
    );
    assert_eq!(token_names("{a{b}"), vec!["a{b"]);
    assert_eq!(token_names("{(&|)}"), vec!["(&|)"]);
    assert_eq!(token_names("{MATH 140"), Vec::<String>::new());
    assert_eq!(token_names("words are passed over"), Vec::<String>::new());
}

#[test]
fn tokens_build_the_same_tree_as_the_text() {
    let tokens = vec![
        RequirementToken::Open,
        RequirementToken::Course("MATH 140".chars().collect()),
        RequirementToken::Or,
        RequirementToken::Course("MATH 141".chars().collect()),
        RequirementToken::Close,
        RequirementToken::And,
        RequirementToken::Course("PHYS 211".chars().collect()),
    ];
    let tree = CourseRequirementTree::construct(&tokens).unwrap();
    assert_eq!(tree.to_string(), "(MATH 140 OR MATH 141) AND PHYS 211");
    let bad = vec![RequirementToken::Course("MATH".chars().collect())];
    assert!(matches!(
        CourseRequirementTree::construct(&bad),
        Err(BulletinError::InvalidIdentifier)
    ));
}

#[test]
fn empty_text_gives_the_root_alone() {
    let tree = CourseRequirementTree::try_from("").unwrap();
    assert_eq!(shape(&tree.rows()), vec![("&".to_string(), None)]);
    assert_eq!(tree.to_string(), "");
}

#[test]
fn brace_left_open_gives_no_leaf() {
    let tree = CourseRequirementTree::try_from("{MATH 140").unwrap();
    assert_eq!(shape(&tree.rows()), vec![("&".to_string(), None)]);
}

#[test]
fn closing_at_the_root_changes_nothing() {
    let tree = CourseRequirementTree::try_from("){MATH 140})]|{MATH 141}").unwrap();
    assert_eq!(
        shape(&tree.rows()),
        vec![
            ("|".to_string(), None),
            ("MATH 140".to_string(), Some(0)),
            ("MATH 141".to_string(), Some(0)),
        ]
    );
}

#[test]
fn logic_token_decides_the_open_group_only() {
    let tree = CourseRequirementTree::try_from("({A 1}|{B 2}){C 3}[{D 4}{E 5}]|").unwrap();
    assert_eq!(
        shape(&tree.rows()),
        vec![
            ("|".to_string(), None),
            ("|".to_string(), Some(0)),
            ("A 1".to_string(), Some(1)),
            ("B 2".to_string(), Some(1)),
            ("C 3".to_string(), Some(0)),
            ("&".to_string(), Some(0)),
            ("D 4".to_string(), Some(5)),
            ("E 5".to_string(), Some(5)),
        ]
    );
    assert_eq!(tree.to_string(), "(A 1 OR B 2) OR C 3 OR [D 4 AND E 5]");
}

#[test]
fn last_logic_token_of_a_group_wins() {
    assert_eq!(rendered("{A 1}|{B 2}&{C 3}"), "A 1 AND B 2 AND C 3");
    assert_eq!(rendered("{A 1}&{B 2}|{C 3}"), "A 1 OR B 2 OR C 3");
}

#[test]
fn rows_come_in_pre_order() {
    let tree = CourseRequirementTree::try_from("(({A 1})|{B 2}){C 3}").unwrap();
    assert_eq!(
        shape(&tree.rows()),
        vec![
            ("&".to_string(), None),
            ("|".to_string(), Some(0)),
            ("&".to_string(), Some(1)),
            ("A 1".to_string(), Some(2)),
            ("B 2".to_string(), Some(1)),
            ("C 3".to_string(), Some(0)),
        ]
    );
}

#[test]
fn group_with_less_than_two_parts_has_no_brackets() {
    assert_eq!(rendered("({MATH 140})&{MATH 141}"), "MATH 140 AND MATH 141");
    assert_eq!(rendered("({MATH 140}|)&{MATH 141}"), "MATH 140 AND MATH 141");
    assert_eq!(rendered("(){MATH 141}"), "MATH 141");
    assert_eq!(rendered("(())"), "");
    assert_eq!(rendered("((){A 1}{B 2})"), "[A 1 AND B 2]");
}

#[test]
fn root_has_no_brackets() {
    assert_eq!(rendered("{A 1}{B 2}{C 3}"), "A 1 AND B 2 AND C 3");
    assert_eq!(rendered("{A 1}|{B 2}"), "A 1 OR B 2");
    assert_eq!(rendered("[{A 1}&{B 2}]|({C 3}|{D 4H})"), "[A 1 AND B 2] OR (C 3 OR D 4H)");
}

#[test]
fn course_text_is_trimmed_and_printed_in_canonical_form() {
    assert_eq!(rendered("{  MATH\u{a0}0140h }"), "MATH 140h");
}
