use bulletin::error::BulletinError;
use bulletin::programs::{
    ScrapeUndergraduatePrograms, UndergraduateProgram, UndergraduateProgramType, BASE_URL,
};
use bulletin::taxonomy::{CampusList, College};

fn details(raw: &str) -> (String, String) {
    ScrapeUndergraduatePrograms::extract_program_title_details(raw)
}

#[test]
fn noisy_titles_have_their_own_details() {
    assert_eq!(
        ScrapeUndergraduatePrograms::manage_noisy_titles("Air Force ROTC"),
        Some(("Air Force ROTC", "ROTC"))
    );
    assert_eq!(
        ScrapeUndergraduatePrograms::manage_noisy_titles(
            "Naval Science/Naval Reserve Officer Training Corps (NROTC)"
        ),
        Some(("Naval Science/Naval ROTC", "ROTC"))
    );
    assert_eq!(
        ScrapeUndergraduatePrograms::manage_noisy_titles("Bachelor of Philosophy Degree"),
        Some(("Philosophy", "B.Phil."))
    );
    assert_eq!(
        ScrapeUndergraduatePrograms::manage_noisy_titles("Global and International Studies Major"),
        Some(("Global and International Studies", "B."))
    );
    assert_eq!(
        ScrapeUndergraduatePrograms::manage_noisy_titles(
            "Science, B.S./Business Administration, M.B.A."
        ),
        Some(("Science, B.S./Business Administration, M.B.A.", "B.S."))
    );
    assert_eq!(ScrapeUndergraduatePrograms::manage_noisy_titles("Army ROTC"), Some(("Army ROTC", "ROTC")));
    assert_eq!(ScrapeUndergraduatePrograms::manage_noisy_titles("Accounting, B.S."), None);
}

#[test]
fn title_is_parted_at_the_last_comma() {
    assert_eq!(details("Accounting, B.S."), ("Accounting".to_string(), "B.S.".to_string()));
    assert_eq!(
        details("Accounting, B.S. (Business)"),
        ("Accounting".to_string(), "B.S.".to_string())
    );
    assert_eq!(
        details("Earth, Energy, and Policy, Minor"),
        ("Earth, Energy, and Policy".to_string(), "Minor".to_string())
    );
    assert_eq!(
        details("  Art History ,  B.A.  (Arts and Architecture) "),
        ("Art History".to_string(), "B.A.".to_string())
    );
    assert_eq!(details("Army ROTC"), ("Army ROTC".to_string(), "ROTC".to_string()));
}

#[test]
fn plain_kinds_need_no_campuses() {
    assert!(matches!(
        ScrapeUndergraduatePrograms::extract_program_type("Minor", None),
        Ok(UndergraduateProgramType::Minor(name)) if name == "Minor"
    ));
    assert!(matches!(
        ScrapeUndergraduatePrograms::extract_program_type("Certificate", Some("nowhere")),
        Ok(UndergraduateProgramType::Certificate(name)) if name == "Certificate"
    ));
    assert!(matches!(
        ScrapeUndergraduatePrograms::extract_program_type("ROTC", None),
        Ok(UndergraduateProgramType::ROTC(name)) if name == "ROTC"
    ));
}

#[test]
fn degrees_have_their_campuses() {
    match ScrapeUndergraduatePrograms::extract_program_type(
        "B.S.",
        Some("  University Park, Hershey Med Ctr, World Campus\n"),
    ) {
        Ok(UndergraduateProgramType::BaccalaureateDegree(name, campuses)) => {
            assert_eq!(name, "B.S.");
            assert_eq!(campuses.disassemble(), vec!["University Park", "World Campus"]);
        }
        other => panic!("{:?}", other),
    }
    match ScrapeUndergraduatePrograms::extract_program_type("A.ENGT.", Some("York")) {
        Ok(UndergraduateProgramType::AssociateDegree(name, campuses)) => {
            assert_eq!(name, "A.ENGT.");
            assert_eq!(campuses.disassemble(), vec!["York"]);
        }
        other => panic!("{:?}", other),
    }
}

#[test]
fn degree_with_an_unknown_campus_is_an_error() {
    assert!(matches!(
        ScrapeUndergraduatePrograms::extract_program_type("B.A.", Some("York, Atlantis")),
        Err(BulletinError::UnknownTaxonomyValue)
    ));
    assert!(matches!(
        ScrapeUndergraduatePrograms::extract_program_type("B.A.", Some("York,Abington")),
        Err(BulletinError::UnknownTaxonomyValue)
    ));
    assert!(matches!(
        ScrapeUndergraduatePrograms::extract_program_type("B.A.", Some("")),
        Err(BulletinError::UnknownTaxonomyValue)
    ));
}

#[test]
fn details_of_a_degree() {
    let found = ScrapeUndergraduatePrograms::extract_program_details(
        "Accounting, B.S. (Business)",
        &vec!["Business", "Smeal College of Business", "Accounting"],
        Some("University Park"),
    )
    .unwrap();
    assert_eq!(found.program_title, "Accounting");
    assert_eq!(found.program_college, Some(College::Business));
    assert_eq!(
        found.program_keywords,
        vec!["Business", "Smeal College of Business", "Accounting"]
    );
    assert!(matches!(
        found.program_type,
        UndergraduateProgramType::BaccalaureateDegree(ref name, _) if name == "B.S."
    ));
}

#[test]
fn details_of_programs_with_a_college_of_their_own() {
    let found = ScrapeUndergraduatePrograms::extract_program_details(
        "Army ROTC",
        &vec![],
        None,
    )
    .unwrap();
    assert_eq!(found.program_title, "Army ROTC");
    assert_eq!(found.program_college, None);
    let found = ScrapeUndergraduatePrograms::extract_program_details(
        "Science, B.S. (Behrend)",
        &vec!["x"],
        Some("Erie"),
    )
    .unwrap();
    assert_eq!(found.program_college, Some(College::Behrend));
    let found = ScrapeUndergraduatePrograms::extract_program_details(
        "Multidisciplinary Studies, B.A. (University College)",
        &vec![],
        Some("York, Beaver"),
    )
    .unwrap();
    assert_eq!(found.program_college, Some(College::UniversityCollege));
    assert_eq!(found.program_title, "Multidisciplinary Studies");
}

#[test]
fn details_with_an_unknown_college_or_campus_are_an_error() {
    assert!(matches!(
        ScrapeUndergraduatePrograms::extract_program_details(
            "Acoustics, Minor",
            &vec!["a", "College of Sound"],
            None,
        ),
        Err(BulletinError::UnknownTaxonomyValue)
    ));
    assert!(matches!(
        ScrapeUndergraduatePrograms::extract_program_details(
            "Acoustics, B.S.",
            &vec!["a", "Engineering"],
            Some("Atlantis"),
        ),
        Err(BulletinError::UnknownTaxonomyValue)
    ));
}

#[test]
fn links_are_made_from_the_address_of_the_catalog() {
    assert_eq!(BASE_URL, "https://bulletins.psu.edu");
    assert_eq!(
        ScrapeUndergraduatePrograms::program_link("/undergraduate/colleges/smeal/accounting-bs/"),
        "https://bulletins.psu.edu/undergraduate/colleges/smeal/accounting-bs/"
    );
    assert_eq!(
        ScrapeUndergraduatePrograms::program_image("/images/accounting-med.jpg"),
        "https://bulletins.psu.edu/images/accounting.jpg"
    );
    assert_eq!(ScrapeUndergraduatePrograms::program_link("/"), "https://bulletins.psu.edu/");
}

#[test]
fn program_is_printed_on_four_lines() {
    let program = UndergraduateProgram {
        title: "Accounting".to_string(),
        link: "L".to_string(),
        program_type: UndergraduateProgramType::BaccalaureateDegree(
            "B.S.".to_string(),
            CampusList::<21>::from(&["York", "Erie"]).unwrap(),
        ),
        image: "I".to_string(),
        keywords: vec![],
        college: Some(College::Business),
    };
    assert_eq!(
        program.to_string(),
        "Accounting [Smeal College of Business]\n -> L\n -> I\n\t -> [B.S.] @ Erie, York"
    );
    let program = UndergraduateProgram {
        title: "Army ROTC".to_string(),
        link: "L".to_string(),
        program_type: UndergraduateProgramType::ROTC("ROTC".to_string()),
        image: "I".to_string(),
        keywords: vec!["k".to_string()],
        college: None,
    };
    assert_eq!(program.to_string(), "Army ROTC\n -> L\n -> I\n\t -> ROTC");
    let program = UndergraduateProgram {
        title: "T".to_string(),
        link: "".to_string(),
        program_type: UndergraduateProgramType::AssociateDegree(
            "A.A.".to_string(),
            CampusList::<21>::new(),
        ),
        image: "".to_string(),
        keywords: vec![],
        college: None,
    };
    assert_eq!(program.to_string(), "T\n -> \n -> \n\t -> [A.A.] @ ");
    let program = UndergraduateProgram {
        title: "T".to_string(),
        link: "l".to_string(),
        program_type: UndergraduateProgramType::Minor("Minor".to_string()),
        image: "i".to_string(),
        keywords: vec![],
        college: Some(College::Nursing),
    };
    assert_eq!(program.to_string(), "T [Nursing]\n -> l\n -> i\n\t -> Minor");
    let program = UndergraduateProgram {
        title: "T".to_string(),
        link: "l".to_string(),
        program_type: UndergraduateProgramType::Certificate("Certificate".to_string()),
        image: "i".to_string(),
        keywords: vec![],
        college: None,
    };
    assert_eq!(program.to_string(), "T\n -> l\n -> i\n\t -> Certificate");
}
