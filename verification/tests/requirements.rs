use bulletin::identifier::CourseIdentifier;
use bulletin::requirements::{classify, strip_logic_chars, RequirementClassifier, CourseRequirementMode};
use bulletin::tree::{CourseRequirementNode, CourseRequirementTree};

fn leaves(tree: &CourseRequirementTree) -> Vec<String> {
    tree.rows()
        .iter()
        .filter_map(|row| match &row.node {
            CourseRequirementNode::COURSE(course) => Some(course.to_string()),
            _ => None,
        })
        .collect()
}

fn own() -> CourseIdentifier {
    CourseIdentifier::try_from("CMPSC 465").unwrap()
}

#[test]
fn prerequisite_and_concurrent_are_told_apart() {
    let found = classify(
        &vec!["PREREQUISITE: MATH 140. CONCURRENT: PHYS 211."],
        &own(),
    );
    let prerequisites = found.requirements.prerequisites.unwrap();
    let concurrent = found.requirements.concurrent.unwrap();
    assert_eq!(leaves(&prerequisites), vec!["MATH 140".to_string()]);
    assert_eq!(leaves(&concurrent), vec!["PHYS 211".to_string()]);
    assert!(found.requirements.corequisites.is_none());
    assert!(found.requirements.recommended.is_none());
    assert!(!found.flags.deviant.unknown_requirement);
    assert!(!found.flags.is_prerequisite_concurrent_separate);
}

#[test]
fn second_prerequisite_clause_is_ignored() {
    let found = classify(
        &vec![
            "PREREQUISITE: MATH 140. CONCURRENT: PHYS 211.",
            "PREREQUISITE: CHEM 110.",
        ],
        &own(),
    );
    let prerequisites = found.requirements.prerequisites.unwrap();
    assert_eq!(leaves(&prerequisites), vec!["MATH 140".to_string()]);
    let concurrent = found.requirements.concurrent.unwrap();
    assert_eq!(leaves(&concurrent), vec!["PHYS 211".to_string()]);
}

#[test]
fn unknown_words_set_the_flag_and_keep_the_tree() {
    let found = classify(
        &vec!["PREREQUISITE: MATH 140", "FIFTH SEMESTER STANDING"],
        &own(),
    );
    assert!(found.flags.deviant.unknown_requirement);
    let prerequisites = found.requirements.prerequisites.unwrap();
    assert_eq!(leaves(&prerequisites), vec!["MATH 140".to_string()]);
    assert_eq!(prerequisites.to_string(), "MATH 140");
}

#[test]
fn own_course_is_left_out() {
    let found = classify(
        &vec!["Prerequisite: ", "CMPSC 465", " or ", "MATH 311W"],
        &own(),
    );
    let prerequisites = found.requirements.prerequisites.unwrap();
    assert_eq!(leaves(&prerequisites), vec!["MATH 311W".to_string()]);
    assert_eq!(prerequisites.to_string(), "MATH 311W");
}

#[test]
fn brackets_and_keywords_build_groups() {
    let found = classify(
        &vec![
            "Enforced Prerequisite at Enrollment: ",
            "(",
            "MATH 140",
            " or ",
            "MATH 140H",
            ")",
            " and ",
            "PHYS 211",
        ],
        &own(),
    );
    let prerequisites = found.requirements.prerequisites.unwrap();
    assert_eq!(
        prerequisites.to_string(),
        "(MATH 140 OR MATH 140H) AND PHYS 211"
    );
}

fn text_of(tree: &Option<CourseRequirementTree>) -> Option<String> {
    tree.as_ref().map(|t| t.to_string())
}

#[test]
fn dangling_logic_is_cut_before_the_tree_is_built() {
    let stripped: String = strip_logic_chars(&"&{MATH 140}|".chars().collect()).iter().collect();
    assert_eq!(stripped, "{MATH 140}");
    let stripped: String = strip_logic_chars(&"|&|{A 1}&{B 2}&&|".chars().collect()).iter().collect();
    assert_eq!(stripped, "{A 1}&{B 2}");
    let stripped: String = strip_logic_chars(&"&|".chars().collect()).iter().collect();
    assert_eq!(stripped, "");
    let found = classify(&vec!["PREREQUISITE", " AND ", "MATH 140", " OR "], &own());
    let tree = found.requirements.prerequisites.unwrap();
    assert_eq!(leaves(&tree), vec!["MATH 140".to_string()]);
    assert_eq!(tree.rows().len(), 2);
    assert!(matches!(tree.rows()[0].node, CourseRequirementNode::AND));
}

#[test]
fn concurrent_behind_or_is_an_alternative() {
    let found = classify(
        &vec!["PREREQUISITE: ", "MATH 140", " OR CONCURRENT: ", "MATH 141"],
        &own(),
    );
    assert!(found.flags.is_prerequisite_concurrent_separate);
    assert_eq!(text_of(&found.requirements.prerequisites), Some("MATH 140".to_string()));
    assert_eq!(text_of(&found.requirements.concurrent), Some("MATH 141".to_string()));
    let found = classify(
        &vec!["PREREQUISITE: ", "MATH 140", " AND CONCURRENT: ", "MATH 141"],
        &own(),
    );
    assert!(!found.flags.is_prerequisite_concurrent_separate);
}

#[test]
fn all_four_categories_are_read() {
    let found = classify(
        &vec![
            "Prerequisite: ",
            "A 1",
            " Concurrent Courses: ",
            "B 2",
            " Corequisite: ",
            "C 3",
            " Recommended Preparations: ",
            "D 4",
        ],
        &own(),
    );
    assert_eq!(text_of(&found.requirements.prerequisites), Some("A 1".to_string()));
    assert_eq!(text_of(&found.requirements.concurrent), Some("B 2".to_string()));
    assert_eq!(text_of(&found.requirements.corequisites), Some("C 3".to_string()));
    assert_eq!(text_of(&found.requirements.recommended), Some("D 4".to_string()));
    assert!(!found.flags.deviant.unknown_requirement);
}

#[test]
fn text_before_the_first_keyword_belongs_to_no_category() {
    let found = classify(&vec!["MATH 140", " AND ", "MATH 141"], &own());
    assert!(found.requirements.prerequisites.is_none());
    assert!(found.requirements.concurrent.is_none());
    assert!(found.requirements.corequisites.is_none());
    assert!(found.requirements.recommended.is_none());
    assert!(!found.flags.deviant.unknown_requirement);
}

#[test]
fn noise_words_are_passed_over() {
    let found = classify(
        &vec!["Enforced Prerequisite at Enrollment: C or better in ", "MATH 140", " prior to ", "MATH 141"],
        &own(),
    );
    assert_eq!(
        text_of(&found.requirements.prerequisites),
        Some("MATH 140 AND MATH 141".to_string())
    );
    assert!(!found.flags.deviant.unknown_requirement);
}

#[test]
fn lone_s_at_the_end_is_no_residue() {
    let found = classify(&vec!["Prerequisite", "s", ": ", "MATH 140"], &own());
    assert!(!found.flags.deviant.unknown_requirement);
    assert_eq!(text_of(&found.requirements.prerequisites), Some("MATH 140".to_string()));
}

#[test]
fn residue_sets_the_flag() {
    let found = classify(&vec!["FIFTH SEMESTER STANDING"], &own());
    assert!(found.flags.deviant.unknown_requirement);
    assert!(found.requirements.prerequisites.is_none());
    let found = classify(&vec!["PREREQUISITE: FIFTH SEMESTER STANDING"], &own());
    assert!(found.flags.deviant.unknown_requirement);
    assert!(found.requirements.prerequisites.is_none());
}

#[test]
fn identifier_is_taken_as_long_as_it_can_be() {
    let found = classify(&vec!["PREREQUISITE: MATH 140H AND MATH 1405"], &own());
    assert_eq!(
        leaves(found.requirements.prerequisites.as_ref().unwrap()),
        vec!["MATH 140H".to_string(), "MATH 1405".to_string()]
    );
}

#[test]
fn course_named_twice_stands_once() {
    let found = classify(
        &vec!["PREREQUISITE: ", "MATH 140", " OR ", "MATH 141", " OR ", "MATH 140"],
        &own(),
    );
    assert_eq!(
        leaves(found.requirements.prerequisites.as_ref().unwrap()),
        vec!["MATH 140".to_string(), "MATH 141".to_string()]
    );
    assert!(found.flags.deviant.unknown_requirement);
}

#[test]
fn any_course_is_no_course() {
    let found = classify(&vec!["PREREQUISITE: ", "ANY 400", " OR ", "MATH 141"], &own());
    assert_eq!(
        leaves(found.requirements.prerequisites.as_ref().unwrap()),
        vec!["MATH 141".to_string()]
    );
}

#[test]
fn own_course_is_left_out_however_it_is_written() {
    for mention in ["CMPSC 465", "CMPSC 0465", "CMPSC +465", "CMPSC\u{a0}465", "cmpsc 465"] {
        let found = classify(&vec!["Prerequisite: ", "MATH 140", " and ", mention], &own());
        assert_eq!(
            leaves(found.requirements.prerequisites.as_ref().unwrap()),
            vec!["MATH 140".to_string()],
            "{}",
            mention
        );
    }
}

#[test]
fn category_whose_text_is_refused_has_no_tree() {
    let found = classify(
        &vec!["PREREQUISITE: ", "}X 140", " CONCURRENT: ", "PHYS 211"],
        &own(),
    );
    assert!(found.requirements.prerequisites.is_none());
    assert_eq!(text_of(&found.requirements.concurrent), Some("PHYS 211".to_string()));
    let found = classify(
        &vec!["PREREQUISITE: ", "}X 140", " PREREQUISITE: ", "PHYS 211"],
        &own(),
    );
    assert_eq!(text_of(&found.requirements.prerequisites), Some("PHYS 211".to_string()));
}

#[test]
fn classifier_can_be_driven_step_by_step() {
    let me = own();
    let mut classifier = RequirementClassifier::new();
    classifier.scan_fragment("Prerequisite: ", &me);
    classifier.scan_fragment("MATH 140", &me);
    classifier.flush(Some(CourseRequirementMode::Corequisite));
    classifier.scan_fragment("MATH 141", &me);
    classifier.scan_fragment("Prerequisite: ", &me);
    classifier.scan_fragment("MATH 142", &me);
    let found = classifier.finish();
    assert_eq!(text_of(&found.requirements.prerequisites), Some("MATH 140".to_string()));
    assert_eq!(text_of(&found.requirements.corequisites), Some("MATH 141".to_string()));
    assert!(found.requirements.concurrent.is_none());
}
