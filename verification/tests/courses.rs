use bulletin::courses::{CourseGroupIdentifier, ExtraDetail, ScrapeUndergraduateCourses};
use bulletin::error::BulletinError;
use bulletin::identifier::CourseIdentifier;

fn own() -> CourseIdentifier {
    CourseIdentifier::try_from("MATH 140").unwrap()
}

fn entry(has_label: bool, text: &str, fragments: &[&str]) -> ExtraDetail {
    ExtraDetail {
        has_label,
        text: text.to_string(),
        fragments: fragments.iter().map(|s| s.to_string()).collect(),
    }
}

fn names(courses: &Option<Vec<CourseIdentifier>>) -> Option<Vec<String>> {
    courses.as_ref().map(|list| list.iter().map(|c| c.to_string()).collect())
}

#[test]
fn group_entry_has_title_and_code() {
    let group = CourseGroupIdentifier::parse("Accounting (ACCTG)", "/courses/acctg/").unwrap();
    assert_eq!(group.title, "Accounting");
    assert_eq!(group.code, "ACCTG");
    assert_eq!(group.raw_link, "/courses/acctg/");
    let group = CourseGroupIdentifier::parse("Biology (Science) (BIOL))", "x").unwrap();
    assert_eq!(group.title, "Biology (Science)");
    assert_eq!(group.code, "BIOL");
    assert!(CourseGroupIdentifier::parse("Accounting", "x").is_none());
    assert!(CourseGroupIdentifier::parse("Accounting(ACCTG)", "x").is_none());
}

#[test]
fn heading_has_identifier_and_title() {
    let (id, title) =
        ScrapeUndergraduateCourses::parse_course_title("MATH 140: Calculus  With Analytic Geometry I ")
            .unwrap();
    assert_eq!(id.to_string(), "MATH 140");
    assert_eq!(title, "Calculus With Analytic Geometry I");
    let (id, title) = ScrapeUndergraduateCourses::parse_course_title("A\u{a0}1H: X: Y").unwrap();
    assert_eq!(id.to_string(), "A 1H");
    assert_eq!(title, "X: Y");
    assert!(ScrapeUndergraduateCourses::parse_course_title("MATH 140 Calculus").is_none());
    assert!(ScrapeUndergraduateCourses::parse_course_title("MATH: Calculus").is_none());
}

#[test]
fn misspelt_attribute_is_mended() {
    assert_eq!(
        ScrapeUndergraduateCourses::fix_attribute_typos(
            "General Education: Social and Behavioral Scien (GS)"
        ),
        "General Education: Social and Behavioral Sciences (GS)"
    );
    assert_eq!(ScrapeUndergraduateCourses::fix_attribute_typos("Honors"), "Honors");
}

#[test]
fn noisy_entries_are_known() {
    assert!(ScrapeUndergraduateCourses::is_noisy_extra_detail(
        "GenEd Learning Objective: Crit and Analytical Think"
    ));
    assert!(ScrapeUndergraduateCourses::is_noisy_extra_detail("Full-Time Equivalent Course"));
    assert!(ScrapeUndergraduateCourses::is_noisy_extra_detail("."));
    assert!(ScrapeUndergraduateCourses::is_noisy_extra_detail(
        "Faculty approval of work experience proposal including employment agreement with an approved supervisor (e.g., registered architect or other approved professional)."
    ));
    assert!(!ScrapeUndergraduateCourses::is_noisy_extra_detail("Honors"));
    assert!(!ScrapeUndergraduateCourses::is_noisy_extra_detail(" ."));
    assert!(ScrapeUndergraduateCourses::is_noisy_course_title(
        "EDAB TEMPH: Temporary Education Abroad Registration"
    ));
    assert!(ScrapeUndergraduateCourses::is_noisy_course_title(
        "EDAB TEMPI: Temporary Education Abroad Registration"
    ));
    assert!(!ScrapeUndergraduateCourses::is_noisy_course_title("MATH 140: Calculus"));
}

#[test]
fn chunks_are_the_parts_of_the_entry() {
    let detail = entry(true, "Prerequisite:", &["Prerequisite:", " ", "MATH 22"]);
    assert_eq!(
        ScrapeUndergraduateCourses::create_text_chunks(&detail),
        vec!["Prerequisite:", " ", "MATH 22"]
    );
}

#[test]
fn requirement_trees_are_made_from_chunks() {
    let found = ScrapeUndergraduateCourses::create_requirement_trees(
        vec!["Enforced Prerequisite at Enrollment: ", "MATH 22", " and ", "MATH 26", " or ", "MATH 140"],
        &own(),
    );
    let tree = found.requirements.prerequisites.unwrap();
    assert_eq!(tree.to_string(), "MATH 22 AND MATH 26");
}

#[test]
fn extra_details_give_attributes_crosslist_and_trees() {
    let details = vec![
        entry(true, "Enforced Prerequisite at Enrollment:", &["Enforced Prerequisite at Enrollment:", " ", "MATH 22", " and ", "MATH 26"]),
        entry(false, "Cross-listed with:", &["Cross-listed with:", " ", "Astro 1", ", ", "phys  14h"]),
        entry(false, " General Education: Quantification  (GQ) ", &["General Education: Quantification (GQ)"]),
        entry(false, "GenEd Learning Objective: Key Literacies", &["GenEd Learning Objective: Key Literacies"]),
        entry(false, "General Education: Social and Behavioral Scien (GS)", &[]),
        entry(false, "Honors", &["Honors"]),
    ];
    let found = ScrapeUndergraduateCourses::parse_extra_details(&details, &own()).unwrap();
    assert_eq!(
        found.attribute_list.disassemble(),
        vec![
            "General Education: Quantification (GQ)",
            "General Education: Social and Behavioral Sciences (GS)",
            "Honors"
        ]
    );
    assert_eq!(
        names(&found.crosslist),
        Some(vec!["ASTRO 1".to_string(), "PHYS 14H".to_string()])
    );
    assert_eq!(found.requirements.prerequisites.unwrap().to_string(), "MATH 22 AND MATH 26");
    assert!(found.requirements.concurrent.is_none());
    assert!(!found.flags.deviant.empty_crosslist);
    assert!(!found.flags.deviant.unknown_requirement);
}

#[test]
fn crosslist_in_one_text_is_parted_at_commas() {
    let details = vec![entry(
        false,
        "Cross-listed with: ASTRO 1, nothing, PHYS 14H",
        &["Cross-listed with: ASTRO 1, nothing, PHYS 14H"],
    )];
    let found = ScrapeUndergraduateCourses::parse_extra_details(&details, &own()).unwrap();
    assert_eq!(
        names(&found.crosslist),
        Some(vec!["ASTRO 1".to_string(), "PHYS 14H".to_string()])
    );
}

#[test]
fn crosslist_without_a_course_sets_the_flag() {
    let details = vec![entry(false, "Cross-Listed", &["Cross-Listed"])];
    let found = ScrapeUndergraduateCourses::parse_extra_details(&details, &own()).unwrap();
    assert!(found.crosslist.is_none());
    assert!(found.flags.deviant.empty_crosslist);
    let details = vec![entry(false, "Cross-listed with:", &["Cross-listed with:", " many "])];
    let found = ScrapeUndergraduateCourses::parse_extra_details(&details, &own()).unwrap();
    assert!(found.crosslist.is_none());
    assert!(found.flags.deviant.empty_crosslist);
}

#[test]
fn requirement_label_without_bold_is_read_too() {
    let details = vec![
        entry(false, "Recommended Preparation", &["Recommended Preparation", ": ", "STAT 200"]),
    ];
    let found = ScrapeUndergraduateCourses::parse_extra_details(&details, &own()).unwrap();
    assert_eq!(found.requirements.recommended.unwrap().to_string(), "STAT 200");
}

#[test]
fn later_requirement_entry_takes_the_place_of_the_earlier() {
    let details = vec![
        entry(true, "Prerequisite:", &["Prerequisite:", "MATH 22", " standing"]),
        entry(true, "Concurrent:", &["Concurrent:", "MATH 26"]),
    ];
    let found = ScrapeUndergraduateCourses::parse_extra_details(&details, &own()).unwrap();
    assert!(found.requirements.prerequisites.is_none());
    assert_eq!(found.requirements.concurrent.unwrap().to_string(), "MATH 26");
    assert!(!found.flags.deviant.unknown_requirement);
    assert!(!found.flags.deviant.empty_crosslist);
}

#[test]
fn empty_crosslist_flag_stays_whatever_follows() {
    let details = vec![
        entry(false, "Cross-Listed", &["Cross-Listed"]),
        entry(true, "Prerequisite:", &["Prerequisite:", "MATH 22"]),
        entry(false, "Honors", &["Honors"]),
        entry(false, "Recommended Preparation", &["Recommended Preparation", ": ", "STAT 200"]),
    ];
    let found = ScrapeUndergraduateCourses::parse_extra_details(&details, &own()).unwrap();
    assert!(found.flags.deviant.empty_crosslist);
    assert!(found.crosslist.is_none());
    assert!(found.requirements.prerequisites.is_none());
    assert_eq!(found.requirements.recommended.unwrap().to_string(), "STAT 200");
    assert!(!found.flags.deviant.unknown_requirement);
}

#[test]
fn empty_crosslist_flag_is_set_wherever_the_entry_stands() {
    let requirement = || entry(true, "Prerequisite:", &["Prerequisite:", "MATH 22", " or concurrent ", "MATH 26", " standing"]);
    let empty = || entry(false, "Cross-listed with:", &["Cross-listed with:", " none "]);
    for details in [
        vec![empty(), requirement()],
        vec![requirement(), empty()],
        vec![requirement(), empty(), requirement()],
    ] {
        let found = ScrapeUndergraduateCourses::parse_extra_details(&details, &own()).unwrap();
        assert!(found.flags.deviant.empty_crosslist);
        assert!(found.crosslist.is_none());
        assert!(found.flags.deviant.unknown_requirement);
        assert!(found.flags.is_prerequisite_concurrent_separate);
        assert_eq!(found.requirements.prerequisites.unwrap().to_string(), "MATH 22");
        assert_eq!(found.requirements.concurrent.unwrap().to_string(), "MATH 26");
    }
}

#[test]
fn crosslist_with_a_course_sets_no_flag_wherever_the_entry_stands() {
    let requirement = || entry(true, "Prerequisite:", &["Prerequisite:", "MATH 22"]);
    let listed = || entry(false, "Cross-listed with:", &["Cross-listed with:", " x ", "STAT 414"]);
    for details in [vec![listed(), requirement()], vec![requirement(), listed()]] {
        let found = ScrapeUndergraduateCourses::parse_extra_details(&details, &own()).unwrap();
        assert!(!found.flags.deviant.empty_crosslist);
        assert_eq!(names(&found.crosslist), Some(vec!["STAT 414".to_string()]));
        assert_eq!(found.requirements.prerequisites.unwrap().to_string(), "MATH 22");
    }
}

#[test]
fn empty_crosslist_keeps_an_earlier_crosslist() {
    let details = vec![
        entry(false, "Cross-listed with:", &["Cross-listed with:", "STAT 414"]),
        entry(false, "Cross-Listed", &["Cross-Listed"]),
    ];
    let found = ScrapeUndergraduateCourses::parse_extra_details(&details, &own()).unwrap();
    assert!(found.flags.deviant.empty_crosslist);
    assert_eq!(names(&found.crosslist), Some(vec!["STAT 414".to_string()]));
}

#[test]
fn unknown_attribute_is_an_error() {
    let details = vec![
        entry(false, "Honors", &["Honors"]),
        entry(false, "Quidditch", &["Quidditch"]),
    ];
    assert!(matches!(
        ScrapeUndergraduateCourses::parse_extra_details(&details, &own()),
        Err(BulletinError::UnknownTaxonomyValue)
    ));
}

#[test]
fn no_entries_say_nothing() {
    let found = ScrapeUndergraduateCourses::parse_extra_details(&vec![], &own()).unwrap();
    assert!(found.attribute_list.is_empty());
    assert!(found.crosslist.is_none());
    assert!(found.requirements.prerequisites.is_none());
    assert!(!found.flags.deviant.empty_crosslist);
    assert!(!found.flags.deviant.unknown_requirement);
    assert!(!found.flags.is_prerequisite_concurrent_separate);
}
