use bulletin::error::BulletinError;
use bulletin::taxonomy::{Attribute, AttributeList, Campus, CampusList, College};

#[test]
fn colleges_are_found_by_name() {
    assert_eq!(College::from("Agricultural Sciences"), Ok(College::AgriculturalSciences));
    assert_eq!(
        College::from("Donald P. Bellisario College of Communications"),
        Ok(College::Communications)
    );
    assert_eq!(College::from("Eberly College of Science"), Ok(College::Science));
    assert_eq!(
        College::from("Penn State Erie, The Behrend College"),
        Ok(College::Behrend)
    );
    assert_eq!(College::from("University College"), Ok(College::UniversityCollege));
}

#[test]
fn unknown_college_is_an_error() {
    assert_eq!(College::from("Hogwarts"), Err(BulletinError::UnknownTaxonomyValue));
    assert_eq!(College::from(""), Err(BulletinError::UnknownTaxonomyValue));
    assert_eq!(College::from("engineering"), Err(BulletinError::UnknownTaxonomyValue));
}

#[test]
fn every_college_is_found_by_its_own_name() {
    let mut i = 0;
    while let Some(college) = College::at(i) {
        assert_eq!(college.index(), i);
        assert_eq!(College::from(college.name()), Ok(college));
        i += 1;
    }
    assert_eq!(i, 19);
}

#[test]
fn every_campus_is_found_by_its_own_name() {
    let mut i = 0;
    while let Some(campus) = Campus::at(i) {
        assert_eq!(campus.index(), i);
        assert_eq!(Campus::from(campus.name()), Ok(campus));
        i += 1;
    }
    assert_eq!(i, 21);
    assert_eq!(Campus::at(0), Some(Campus::Abington));
    assert_eq!(Campus::at(17), Some(Campus::UniversityPark));
    assert_eq!(Campus::at(20), Some(Campus::York));
    assert_eq!(Campus::at(21), None);
    assert_eq!(Campus::WilkesBarre.name(), "Wilkes-Barre");
    assert_eq!(Campus::from("Behrend"), Err(BulletinError::UnknownTaxonomyValue));
}

#[test]
fn every_attribute_is_found_by_its_own_name() {
    let mut i = 0;
    while let Some(attribute) = Attribute::at(i) {
        assert_eq!(attribute.index(), i);
        assert_eq!(Attribute::from(attribute.name()), Ok(attribute));
        i += 1;
    }
    assert_eq!(i, 22);
    assert_eq!(Attribute::from("Honors"), Ok(Attribute::HNR));
    assert_eq!(Attribute::from("International Cultures (IL)"), Ok(Attribute::IC));
    assert_eq!(Attribute::HNR.index(), 21);
    assert_eq!(Attribute::from("GA"), Err(BulletinError::UnknownTaxonomyValue));
}

#[test]
fn new_campus_list_is_empty() {
    let list = CampusList::<21>::new();
    assert_eq!(list.disassemble(), Vec::<&str>::new());
    assert_eq!(list.contains("York"), Ok(false));
}

#[test]
fn campus_list_holds_what_it_was_made_from() {
    let list = CampusList::<21>::from(&["York", "Abington", "University Park", "York"]).unwrap();
    assert_eq!(list.disassemble(), vec!["Abington", "University Park", "York"]);
    assert_eq!(list.contains("York"), Ok(true));
    assert_eq!(list.contains("Altoona"), Ok(false));
}

#[test]
fn campus_list_passes_over_the_two_hershey_names() {
    let list = CampusList::<21>::from(&["Hershey Med Ctr", "Erie", "Nurses at Hershey"]).unwrap();
    assert_eq!(list.disassemble(), vec!["Erie"]);
    assert_eq!(list.contains("Hershey Med Ctr"), Err(BulletinError::UnknownTaxonomyValue));
}

#[test]
fn campus_list_refuses_an_unknown_name() {
    assert!(matches!(
        CampusList::<21>::from(&["York", "Atlantis"]),
        Err(BulletinError::UnknownTaxonomyValue)
    ));
    let mut list = CampusList::<21>::new();
    assert_eq!(list.add("Atlantis"), Err(BulletinError::UnknownTaxonomyValue));
    assert_eq!(list.remove("Atlantis"), Err(BulletinError::UnknownTaxonomyValue));
    assert_eq!(list.contains("Atlantis"), Err(BulletinError::UnknownTaxonomyValue));
    assert_eq!(list.disassemble(), Vec::<&str>::new());
}

#[test]
fn short_campus_list_has_no_place_for_later_campuses() {
    let mut list = CampusList::<3>::new();
    assert_eq!(list.add("Beaver"), Ok(()));
    assert_eq!(list.add("Berks"), Err(BulletinError::UnknownTaxonomyValue));
    assert_eq!(list.contains("York"), Err(BulletinError::UnknownTaxonomyValue));
    assert_eq!(list.disassemble(), vec!["Beaver"]);
    assert!(matches!(
        CampusList::<3>::from(&["Abington", "York"]),
        Err(BulletinError::UnknownTaxonomyValue)
    ));
}

#[test]
fn long_campus_list_has_no_more_campuses() {
    let mut list = CampusList::<30>::new();
    assert_eq!(list.add("York"), Ok(()));
    assert_eq!(list.disassemble(), vec!["York"]);
}

#[test]
fn campuses_are_added_and_removed() {
    let mut list = CampusList::<21>::new();
    assert_eq!(list.add("Scranton"), Ok(()));
    assert_eq!(list.add("Beaver"), Ok(()));
    assert_eq!(list.add("Scranton"), Ok(()));
    assert_eq!(list.contains("Scranton"), Ok(true));
    assert_eq!(list.disassemble(), vec!["Beaver", "Scranton"]);
    assert_eq!(list.remove("Scranton"), Ok(()));
    assert_eq!(list.contains("Scranton"), Ok(false));
    assert_eq!(list.remove("York"), Ok(()));
    assert_eq!(list.disassemble(), vec!["Beaver"]);
}

#[test]
fn new_attribute_list_is_empty() {
    let list = AttributeList::<22>::new();
    assert!(list.is_empty());
    assert_eq!(list.disassemble(), Vec::<&str>::new());
    for i in 0..22 {
        assert!(!list.get(i));
    }
}

#[test]
fn attribute_list_holds_what_it_was_made_from() {
    let list = AttributeList::<22>::from(&[
        "Honors",
        "General Education: Arts (GA)",
        "Bachelor of Arts: Humanities",
    ])
    .unwrap();
    assert!(!list.is_empty());
    assert!(list.get(0));
    assert!(list.get(14));
    assert!(list.get(21));
    assert!(!list.get(1));
    assert_eq!(
        list.disassemble(),
        vec![
            "General Education: Arts (GA)",
            "Bachelor of Arts: Humanities",
            "Honors"
        ]
    );
    assert_eq!(list.contains("Honors"), Ok(true));
    assert_eq!(list.contains("First-Year Seminar"), Ok(false));
    assert!(matches!(
        AttributeList::<22>::from(&["Honors", "Honours"]),
        Err(BulletinError::UnknownTaxonomyValue)
    ));
}

#[test]
fn attributes_are_added_removed_and_cleared() {
    let mut list = AttributeList::<22>::new();
    assert_eq!(list.add("First-Year Seminar"), Ok(()));
    assert_eq!(list.add("United States Cultures (US)"), Ok(()));
    assert!(list.get(9));
    assert!(list.get(11));
    assert_eq!(list.remove("First-Year Seminar"), Ok(()));
    assert!(!list.get(9));
    assert!(!list.is_empty());
    assert_eq!(list.add("No such thing"), Err(BulletinError::UnknownTaxonomyValue));
    assert_eq!(list.remove("No such thing"), Err(BulletinError::UnknownTaxonomyValue));
    assert_eq!(list.contains("No such thing"), Err(BulletinError::UnknownTaxonomyValue));
    assert_eq!(list.disassemble(), vec!["United States Cultures (US)"]);
    list.clear();
    assert!(list.is_empty());
    assert_eq!(list.disassemble(), Vec::<&str>::new());
}
