//! The fixed tables of the catalog: colleges, campuses and course
//! attributes, and sets of campuses and of attributes.

use vstd::prelude::*;
use vstd::array::array_fill_for_copy_types;
use crate::error::BulletinError;
use crate::text::{chars_are, piece_views, to_chars};

verus! {

/// A college of the university.
#[derive(Debug, Clone, Copy, PartialEq, Eq, Structural)]
pub enum College {
    AgriculturalSciences,
    ArtsAndArchitecture,
    Communications,
    EarthAndMineralSciences,
    Science,
    Education,
    Engineering,
    HealthAndHumanDevelopment,
    InformationSciencesAndTechnology,
    Intercollege,
    LiberalArts,
    Nursing,
    Abington,
    Altoona,
    Berks,
    Behrend,
    Capital,
    Business,
    UniversityCollege,
}

impl College {
    /// How many colleges the table holds.
    pub open spec fn count() -> int {
        19
    }

    /// The place of the college in the table.
    pub open spec fn position(self) -> int {
        match self {
            College::AgriculturalSciences => 0,
            College::ArtsAndArchitecture => 1,
            College::Communications => 2,
            College::EarthAndMineralSciences => 3,
            College::Science => 4,
            College::Education => 5,
            College::Engineering => 6,
            College::HealthAndHumanDevelopment => 7,
            College::InformationSciencesAndTechnology => 8,
            College::Intercollege => 9,
            College::LiberalArts => 10,
            College::Nursing => 11,
            College::Abington => 12,
            College::Altoona => 13,
            College::Berks => 14,
            College::Behrend => 15,
            College::Capital => 16,
            College::Business => 17,
            College::UniversityCollege => 18,
        }
    }

    /// The name under which the catalog lists the college.
    pub open spec fn label(self) -> Seq<char> {
        match self {
            College::AgriculturalSciences => "Agricultural Sciences"@,
            College::ArtsAndArchitecture => "Arts and Architecture"@,
            College::Communications => "Donald P. Bellisario College of Communications"@,
            College::EarthAndMineralSciences => "Earth and Mineral Sciences"@,
            College::Science => "Eberly College of Science"@,
            College::Education => "Education"@,
            College::Engineering => "Engineering"@,
            College::HealthAndHumanDevelopment => "Health and Human Development"@,
            College::InformationSciencesAndTechnology => "Information Sciences and Technology"@,
            College::Intercollege => "Intercollege"@,
            College::LiberalArts => "Liberal Arts"@,
            College::Nursing => "Nursing"@,
            College::Abington => "Penn State Abington, The Abington College"@,
            College::Altoona => "Penn State Altoona, The Altoona College"@,
            College::Berks => "Penn State Berks, The Berks College"@,
            College::Behrend => "Penn State Erie, The Behrend College"@,
            College::Capital => "Penn State Harrisburg, The Capital College"@,
            College::Business => "Smeal College of Business"@,
            College::UniversityCollege => "University College"@,
        }
    }

    /// The place of the college in the table.
    pub fn index(self) -> (r: usize)
        ensures
            r == self.position(),
            r < College::count(),
    {
        match self {
            College::AgriculturalSciences => 0,
            College::ArtsAndArchitecture => 1,
            College::Communications => 2,
            College::EarthAndMineralSciences => 3,
            College::Science => 4,
            College::Education => 5,
            College::Engineering => 6,
            College::HealthAndHumanDevelopment => 7,
            College::InformationSciencesAndTechnology => 8,
            College::Intercollege => 9,
            College::LiberalArts => 10,
            College::Nursing => 11,
            College::Abington => 12,
            College::Altoona => 13,
            College::Berks => 14,
            College::Behrend => 15,
            College::Capital => 16,
            College::Business => 17,
            College::UniversityCollege => 18,
        }
    }

    /// The college at a place of the table, if the table reaches that far.
    pub fn at(index: usize) -> (r: Option<College>)
        ensures
            index < College::count() ==> r is Some && r->Some_0.position() == index,
            index >= College::count() ==> r is None,
    {
        if index == 0 {
            Some(College::AgriculturalSciences)
        } else if index == 1 {
            Some(College::ArtsAndArchitecture)
        } else if index == 2 {
            Some(College::Communications)
        } else if index == 3 {
            Some(College::EarthAndMineralSciences)
        } else if index == 4 {
            Some(College::Science)
        } else if index == 5 {
            Some(College::Education)
        } else if index == 6 {
            Some(College::Engineering)
        } else if index == 7 {
            Some(College::HealthAndHumanDevelopment)
        } else if index == 8 {
            Some(College::InformationSciencesAndTechnology)
        } else if index == 9 {
            Some(College::Intercollege)
        } else if index == 10 {
            Some(College::LiberalArts)
        } else if index == 11 {
            Some(College::Nursing)
        } else if index == 12 {
            Some(College::Abington)
        } else if index == 13 {
            Some(College::Altoona)
        } else if index == 14 {
            Some(College::Berks)
        } else if index == 15 {
            Some(College::Behrend)
        } else if index == 16 {
            Some(College::Capital)
        } else if index == 17 {
            Some(College::Business)
        } else if index == 18 {
            Some(College::UniversityCollege)
        } else {
            None
        }
    }

    /// The name under which the catalog lists the college.
    pub fn name(self) -> (r: &'static str)
        ensures
            r@ == self.label(),
    {
        match self {
            College::AgriculturalSciences => "Agricultural Sciences",
            College::ArtsAndArchitecture => "Arts and Architecture",
            College::Communications => "Donald P. Bellisario College of Communications",
            College::EarthAndMineralSciences => "Earth and Mineral Sciences",
            College::Science => "Eberly College of Science",
            College::Education => "Education",
            College::Engineering => "Engineering",
            College::HealthAndHumanDevelopment => "Health and Human Development",
            College::InformationSciencesAndTechnology => "Information Sciences and Technology",
            College::Intercollege => "Intercollege",
            College::LiberalArts => "Liberal Arts",
            College::Nursing => "Nursing",
            College::Abington => "Penn State Abington, The Abington College",
            College::Altoona => "Penn State Altoona, The Altoona College",
            College::Berks => "Penn State Berks, The Berks College",
            College::Behrend => "Penn State Erie, The Behrend College",
            College::Capital => "Penn State Harrisburg, The Capital College",
            College::Business => "Smeal College of Business",
            College::UniversityCollege => "University College",
        }
    }

    /// The college that the catalog lists under `value`: the first of the
    /// table with that name. Fails exactly where the table has none.
    pub fn from(value: &str) -> (r: Result<College, BulletinError>)
        ensures
            match r {
                Ok(found) => found.label() == value@ && forall|other: College|
                    other.position() < found.position() ==> other.label() != value@,
                Err(e) => e == BulletinError::UnknownTaxonomyValue && forall|other: College|
                    other.label() != value@,
            },
    {
        let wanted = to_chars(value);
        College::from_chars(&wanted)
    }

    /// The college that the catalog lists under the characters of `value`.
    pub fn from_chars(value: &Vec<char>) -> (r: Result<College, BulletinError>)
        ensures
            match r {
                Ok(found) => found.label() == value@ && forall|other: College|
                    other.position() < found.position() ==> other.label() != value@,
                Err(e) => e == BulletinError::UnknownTaxonomyValue && forall|other: College|
                    other.label() != value@,
            },
    {
        let mut i: usize = 0;
        while i < 19
            invariant
                i <= 19,
                forall|other: College| other.position() < i ==> other.label() != value@,
            decreases 19 - i,
        {
            match College::at(i) {
                Some(candidate) => {
                    if chars_are(value, candidate.name()) {
                        return Ok(candidate);
                    }
                    assert forall|other: College| other.position() < i + 1 implies other.label()
                        != value@ by {
                        if other.position() == i {
                            assert(other == candidate);
                        }
                    }
                },
                None => {},
            }
            i += 1;
        }
        Err(BulletinError::UnknownTaxonomyValue)
    }
}

/// A campus of the university.
#[derive(Debug, Clone, Copy, PartialEq, Eq, Structural)]
pub enum Campus {
    Abington,
    Altoona,
    Beaver,
    Berks,
    Brandywine,
    DuBois,
    Erie,
    Fayette,
    GreaterAllegheny,
    Harrisburg,
    Hazleton,
    LehighValley,
    MontAlto,
    NewKensington,
    Schuylkill,
    Scranton,
    Shenango,
    UniversityPark,
    WilkesBarre,
    WorldCampus,
    York,
}

impl Campus {
    /// How many campuses the table holds.
    pub open spec fn count() -> int {
        21
    }

    /// The place of the campus in the table.
    pub open spec fn position(self) -> int {
        match self {
            Campus::Abington => 0,
            Campus::Altoona => 1,
            Campus::Beaver => 2,
            Campus::Berks => 3,
            Campus::Brandywine => 4,
            Campus::DuBois => 5,
            Campus::Erie => 6,
            Campus::Fayette => 7,
            Campus::GreaterAllegheny => 8,
            Campus::Harrisburg => 9,
            Campus::Hazleton => 10,
            Campus::LehighValley => 11,
            Campus::MontAlto => 12,
            Campus::NewKensington => 13,
            Campus::Schuylkill => 14,
            Campus::Scranton => 15,
            Campus::Shenango => 16,
            Campus::UniversityPark => 17,
            Campus::WilkesBarre => 18,
            Campus::WorldCampus => 19,
            Campus::York => 20,
        }
    }

    /// The name under which the catalog lists the campus.
    pub open spec fn label(self) -> Seq<char> {
        match self {
            Campus::Abington => "Abington"@,
            Campus::Altoona => "Altoona"@,
            Campus::Beaver => "Beaver"@,
            Campus::Berks => "Berks"@,
            Campus::Brandywine => "Brandywine"@,
            Campus::DuBois => "DuBois"@,
            Campus::Erie => "Erie"@,
            Campus::Fayette => "Fayette"@,
            Campus::GreaterAllegheny => "Greater Allegheny"@,
            Campus::Harrisburg => "Harrisburg"@,
            Campus::Hazleton => "Hazleton"@,
            Campus::LehighValley => "Lehigh Valley"@,
            Campus::MontAlto => "Mont Alto"@,
            Campus::NewKensington => "New Kensington"@,
            Campus::Schuylkill => "Schuylkill"@,
            Campus::Scranton => "Scranton"@,
            Campus::Shenango => "Shenango"@,
            Campus::UniversityPark => "University Park"@,
            Campus::WilkesBarre => "Wilkes-Barre"@,
            Campus::WorldCampus => "World Campus"@,
            Campus::York => "York"@,
        }
    }

    /// The place of the campus in the table.
    pub fn index(self) -> (r: usize)
        ensures
            r == self.position(),
            r < Campus::count(),
    {
        match self {
            Campus::Abington => 0,
            Campus::Altoona => 1,
            Campus::Beaver => 2,
            Campus::Berks => 3,
            Campus::Brandywine => 4,
            Campus::DuBois => 5,
            Campus::Erie => 6,
            Campus::Fayette => 7,
            Campus::GreaterAllegheny => 8,
            Campus::Harrisburg => 9,
            Campus::Hazleton => 10,
            Campus::LehighValley => 11,
            Campus::MontAlto => 12,
            Campus::NewKensington => 13,
            Campus::Schuylkill => 14,
            Campus::Scranton => 15,
            Campus::Shenango => 16,
            Campus::UniversityPark => 17,
            Campus::WilkesBarre => 18,
            Campus::WorldCampus => 19,
            Campus::York => 20,
        }
    }

    /// The campus at a place of the table, if the table reaches that far.
    pub fn at(index: usize) -> (r: Option<Campus>)
        ensures
            index < Campus::count() ==> r is Some && r->Some_0.position() == index,
            index >= Campus::count() ==> r is None,
    {
        if index == 0 {
            Some(Campus::Abington)
        } else if index == 1 {
            Some(Campus::Altoona)
        } else if index == 2 {
            Some(Campus::Beaver)
        } else if index == 3 {
            Some(Campus::Berks)
        } else if index == 4 {
            Some(Campus::Brandywine)
        } else if index == 5 {
            Some(Campus::DuBois)
        } else if index == 6 {
            Some(Campus::Erie)
        } else if index == 7 {
            Some(Campus::Fayette)
        } else if index == 8 {
            Some(Campus::GreaterAllegheny)
        } else if index == 9 {
            Some(Campus::Harrisburg)
        } else if index == 10 {
            Some(Campus::Hazleton)
        } else if index == 11 {
            Some(Campus::LehighValley)
        } else if index == 12 {
            Some(Campus::MontAlto)
        } else if index == 13 {
            Some(Campus::NewKensington)
        } else if index == 14 {
            Some(Campus::Schuylkill)
        } else if index == 15 {
            Some(Campus::Scranton)
        } else if index == 16 {
            Some(Campus::Shenango)
        } else if index == 17 {
            Some(Campus::UniversityPark)
        } else if index == 18 {
            Some(Campus::WilkesBarre)
        } else if index == 19 {
            Some(Campus::WorldCampus)
        } else if index == 20 {
            Some(Campus::York)
        } else {
            None
        }
    }

    /// The name under which the catalog lists the campus.
    pub fn name(self) -> (r: &'static str)
        ensures
            r@ == self.label(),
    {
        match self {
            Campus::Abington => "Abington",
            Campus::Altoona => "Altoona",
            Campus::Beaver => "Beaver",
            Campus::Berks => "Berks",
            Campus::Brandywine => "Brandywine",
            Campus::DuBois => "DuBois",
            Campus::Erie => "Erie",
            Campus::Fayette => "Fayette",
            Campus::GreaterAllegheny => "Greater Allegheny",
            Campus::Harrisburg => "Harrisburg",
            Campus::Hazleton => "Hazleton",
            Campus::LehighValley => "Lehigh Valley",
            Campus::MontAlto => "Mont Alto",
            Campus::NewKensington => "New Kensington",
            Campus::Schuylkill => "Schuylkill",
            Campus::Scranton => "Scranton",
            Campus::Shenango => "Shenango",
            Campus::UniversityPark => "University Park",
            Campus::WilkesBarre => "Wilkes-Barre",
            Campus::WorldCampus => "World Campus",
            Campus::York => "York",
        }
    }

    /// The campus that the catalog lists under `value`: the first of the
    /// table with that name. Fails exactly where the table has none.
    pub fn from(value: &str) -> (r: Result<Campus, BulletinError>)
        ensures
            match r {
                Ok(found) => found.label() == value@ && forall|other: Campus|
                    other.position() < found.position() ==> other.label() != value@,
                Err(e) => e == BulletinError::UnknownTaxonomyValue && forall|other: Campus|
                    other.label() != value@,
            },
    {
        let wanted = to_chars(value);
        Campus::from_chars(&wanted)
    }

    /// The campus that the catalog lists under the characters of `value`.
    pub fn from_chars(value: &Vec<char>) -> (r: Result<Campus, BulletinError>)
        ensures
            match r {
                Ok(found) => found.label() == value@ && forall|other: Campus|
                    other.position() < found.position() ==> other.label() != value@,
                Err(e) => e == BulletinError::UnknownTaxonomyValue && forall|other: Campus|
                    other.label() != value@,
            },
    {
        let mut i: usize = 0;
        while i < 21
            invariant
                i <= 21,
                forall|other: Campus| other.position() < i ==> other.label() != value@,
            decreases 21 - i,
        {
            match Campus::at(i) {
                Some(candidate) => {
                    if chars_are(value, candidate.name()) {
                        return Ok(candidate);
                    }
                    assert forall|other: Campus| other.position() < i + 1 implies other.label()
                        != value@ by {
                        if other.position() == i {
                            assert(other == candidate);
                        }
                    }
                },
                None => {},
            }
            i += 1;
        }
        Err(BulletinError::UnknownTaxonomyValue)
    }
}

/// An attribute that a course can carry: a general-education or
/// bachelor-of-arts requirement that it meets, or honors.
#[derive(Debug, Clone, Copy, PartialEq, Eq, Structural)]
pub enum Attribute {
    GA,
    GHW,
    GH,
    GN,
    GQ,
    GS,
    GWS,
    ITD,
    LKD,
    FYS,
    IC,
    US,
    WCC,
    BA,
    BH,
    BN,
    BO,
    BQ,
    BS,
    BF1,
    BF2,
    HNR,
}

impl Attribute {
    /// How many attributes the table holds.
    pub open spec fn count() -> int {
        22
    }

    /// The place of the attribute in the table.
    pub open spec fn position(self) -> int {
        match self {
            Attribute::GA => 0,
            Attribute::GHW => 1,
            Attribute::GH => 2,
            Attribute::GN => 3,
            Attribute::GQ => 4,
            Attribute::GS => 5,
            Attribute::GWS => 6,
            Attribute::ITD => 7,
            Attribute::LKD => 8,
            Attribute::FYS => 9,
            Attribute::IC => 10,
            Attribute::US => 11,
            Attribute::WCC => 12,
            Attribute::BA => 13,
            Attribute::BH => 14,
            Attribute::BN => 15,
            Attribute::BO => 16,
            Attribute::BQ => 17,
            Attribute::BS => 18,
            Attribute::BF1 => 19,
            Attribute::BF2 => 20,
            Attribute::HNR => 21,
        }
    }

    /// The name under which the catalog lists the attribute.
    pub open spec fn label(self) -> Seq<char> {
        match self {
            Attribute::GA => "General Education: Arts (GA)"@,
            Attribute::GHW => "General Education: Health and Wellness (GHW)"@,
            Attribute::GH => "General Education: Humanities (GH)"@,
            Attribute::GN => "General Education: Natural Sciences (GN)"@,
            Attribute::GQ => "General Education: Quantification (GQ)"@,
            Attribute::GS => "General Education: Social and Behavioral Sciences (GS)"@,
            Attribute::GWS => "General Education: Writing/Speaking (GWS)"@,
            Attribute::ITD => "General Education - Integrative: Interdomain"@,
            Attribute::LKD => "General Education - Integrative: Linked"@,
            Attribute::FYS => "First-Year Seminar"@,
            Attribute::IC => "International Cultures (IL)"@,
            Attribute::US => "United States Cultures (US)"@,
            Attribute::WCC => "Writing Across the Curriculum"@,
            Attribute::BA => "Bachelor of Arts: Arts"@,
            Attribute::BH => "Bachelor of Arts: Humanities"@,
            Attribute::BN => "Bachelor of Arts: Natural Sciences"@,
            Attribute::BO => "Bachelor of Arts: Other Cultures"@,
            Attribute::BQ => "Bachelor of Arts: Quantification"@,
            Attribute::BS => "Bachelor of Arts: Social and Behavioral Sciences"@,
            Attribute::BF1 => "Bachelor of Arts: Foreign/World Lang (12th Unit)"@,
            Attribute::BF2 => "Bachelor of Arts: 2nd Foreign/World Language (All)"@,
            Attribute::HNR => "Honors"@,
        }
    }

    /// The place of the attribute in the table.
    pub fn index(self) -> (r: usize)
        ensures
            r == self.position(),
            r < Attribute::count(),
    {
        match self {
            Attribute::GA => 0,
            Attribute::GHW => 1,
            Attribute::GH => 2,
            Attribute::GN => 3,
            Attribute::GQ => 4,
            Attribute::GS => 5,
            Attribute::GWS => 6,
            Attribute::ITD => 7,
            Attribute::LKD => 8,
            Attribute::FYS => 9,
            Attribute::IC => 10,
            Attribute::US => 11,
            Attribute::WCC => 12,
            Attribute::BA => 13,
            Attribute::BH => 14,
            Attribute::BN => 15,
            Attribute::BO => 16,
            Attribute::BQ => 17,
            Attribute::BS => 18,
            Attribute::BF1 => 19,
            Attribute::BF2 => 20,
            Attribute::HNR => 21,
        }
    }

    /// The attribute at a place of the table, if the table reaches that far.
    pub fn at(index: usize) -> (r: Option<Attribute>)
        ensures
            index < Attribute::count() ==> r is Some && r->Some_0.position() == index,
            index >= Attribute::count() ==> r is None,
    {
        if index == 0 {
            Some(Attribute::GA)
        } else if index == 1 {
            Some(Attribute::GHW)
        } else if index == 2 {
            Some(Attribute::GH)
        } else if index == 3 {
            Some(Attribute::GN)
        } else if index == 4 {
            Some(Attribute::GQ)
        } else if index == 5 {
            Some(Attribute::GS)
        } else if index == 6 {
            Some(Attribute::GWS)
        } else if index == 7 {
            Some(Attribute::ITD)
        } else if index == 8 {
            Some(Attribute::LKD)
        } else if index == 9 {
            Some(Attribute::FYS)
        } else if index == 10 {
            Some(Attribute::IC)
        } else if index == 11 {
            Some(Attribute::US)
        } else if index == 12 {
            Some(Attribute::WCC)
        } else if index == 13 {
            Some(Attribute::BA)
        } else if index == 14 {
            Some(Attribute::BH)
        } else if index == 15 {
            Some(Attribute::BN)
        } else if index == 16 {
            Some(Attribute::BO)
        } else if index == 17 {
            Some(Attribute::BQ)
        } else if index == 18 {
            Some(Attribute::BS)
        } else if index == 19 {
            Some(Attribute::BF1)
        } else if index == 20 {
            Some(Attribute::BF2)
        } else if index == 21 {
            Some(Attribute::HNR)
        } else {
            None
        }
    }

    /// The name under which the catalog lists the attribute.
    pub fn name(self) -> (r: &'static str)
        ensures
            r@ == self.label(),
    {
        match self {
            Attribute::GA => "General Education: Arts (GA)",
            Attribute::GHW => "General Education: Health and Wellness (GHW)",
            Attribute::GH => "General Education: Humanities (GH)",
            Attribute::GN => "General Education: Natural Sciences (GN)",
            Attribute::GQ => "General Education: Quantification (GQ)",
            Attribute::GS => "General Education: Social and Behavioral Sciences (GS)",
            Attribute::GWS => "General Education: Writing/Speaking (GWS)",
            Attribute::ITD => "General Education - Integrative: Interdomain",
            Attribute::LKD => "General Education - Integrative: Linked",
            Attribute::FYS => "First-Year Seminar",
            Attribute::IC => "International Cultures (IL)",
            Attribute::US => "United States Cultures (US)",
            Attribute::WCC => "Writing Across the Curriculum",
            Attribute::BA => "Bachelor of Arts: Arts",
            Attribute::BH => "Bachelor of Arts: Humanities",
            Attribute::BN => "Bachelor of Arts: Natural Sciences",
            Attribute::BO => "Bachelor of Arts: Other Cultures",
            Attribute::BQ => "Bachelor of Arts: Quantification",
            Attribute::BS => "Bachelor of Arts: Social and Behavioral Sciences",
            Attribute::BF1 => "Bachelor of Arts: Foreign/World Lang (12th Unit)",
            Attribute::BF2 => "Bachelor of Arts: 2nd Foreign/World Language (All)",
            Attribute::HNR => "Honors",
        }
    }

    /// The attribute that the catalog lists under `value`: the first of the
    /// table with that name. Fails exactly where the table has none.
    pub fn from(value: &str) -> (r: Result<Attribute, BulletinError>)
        ensures
            match r {
                Ok(found) => found.label() == value@ && forall|other: Attribute|
                    other.position() < found.position() ==> other.label() != value@,
                Err(e) => e == BulletinError::UnknownTaxonomyValue && forall|other: Attribute|
                    other.label() != value@,
            },
    {
        let wanted = to_chars(value);
        Attribute::from_chars(&wanted)
    }

    /// The attribute that the catalog lists under the characters of `value`.
    pub fn from_chars(value: &Vec<char>) -> (r: Result<Attribute, BulletinError>)
        ensures
            match r {
                Ok(found) => found.label() == value@ && forall|other: Attribute|
                    other.position() < found.position() ==> other.label() != value@,
                Err(e) => e == BulletinError::UnknownTaxonomyValue && forall|other: Attribute|
                    other.label() != value@,
            },
    {
        let mut i: usize = 0;
        while i < 22
            invariant
                i <= 22,
                forall|other: Attribute| other.position() < i ==> other.label() != value@,
            decreases 22 - i,
        {
            match Attribute::at(i) {
                Some(candidate) => {
                    if chars_are(value, candidate.name()) {
                        return Ok(candidate);
                    }
                    assert forall|other: Attribute| other.position() < i + 1 implies other.label()
                        != value@ by {
                        if other.position() == i {
                            assert(other == candidate);
                        }
                    }
                },
                None => {},
            }
            i += 1;
        }
        Err(BulletinError::UnknownTaxonomyValue)
    }
}

/// Whether a list of campuses passes over `name`: two places of the catalog
/// that are no campuses.
pub open spec fn is_passed_over(name: Seq<char>) -> bool {
    name == "Hershey Med Ctr"@ || name == "Nurses at Hershey"@
}

/// Whether `name` names the campus at place `i` of the table.
pub open spec fn names_campus_at(name: Seq<char>, i: int) -> bool {
    exists|c: Campus| c.label() == name && c.position() == i && forall|other: Campus|
        other.position() < c.position() ==> other.label() != name
}

/// The place that `name` takes in a list of `size` places: the place of the
/// first campus of the table with that name, where the list reaches that far.
pub open spec fn campus_place(name: Seq<char>, size: int) -> Option<int> {
    if exists|i: int| 0 <= i < size && names_campus_at(name, i) {
        Some(choose|i: int| 0 <= i < size && names_campus_at(name, i))
    } else {
        None
    }
}

/// The flags of the list of `size` places that holds the campuses that
/// `names` name, the two that are passed over left aside: none where one of
/// the names has no place in the list.
pub open spec fn campus_flags(names: Seq<Seq<char>>, size: int) -> Option<Seq<bool>> {
    if exists|k: int| 0 <= k < names.len() && !is_passed_over(names[k])
        && campus_place(#[trigger] names[k], size) is None {
        None
    } else {
        Some(
            Seq::new(
                size as nat,
                |i: int|
                    exists|k: int|
                        0 <= k < names.len() && !is_passed_over(names[k])
                            && campus_place(#[trigger] names[k], size) == Some(i),
            ),
        )
    }
}

/// The names of the campuses among the first `n` places of `flags` that are
/// set, in the order of the table.
pub open spec fn campus_names(flags: Seq<bool>, n: nat) -> Seq<Seq<char>>
    decreases n,
{
    if n == 0 {
        Seq::empty()
    } else {
        let before = campus_names(flags, (n - 1) as nat);
        if n <= flags.len() && flags[n - 1] && exists|c: Campus| c.position() == n - 1 {
            before.push((choose|c: Campus| c.position() == n - 1).label())
        } else {
            before
        }
    }
}

/// A set of campuses, as one flag for each of the first `T` places of the
/// table.
#[derive(Debug)]
pub struct CampusList<const T: usize> {
    list: [bool; T],
}

impl<const T: usize> View for CampusList<T> {
    type V = Seq<bool>;

    closed spec fn view(&self) -> Seq<bool> {
        self.list@
    }
}

impl<const T: usize> CampusList<T> {
    #[verifier::type_invariant]
    spec fn wf(&self) -> bool {
        forall|i: int| Campus::count() <= i < T ==> !self.list@[i]
    }

    /// The place of `item` in this list, or the failure of a name that has
    /// none.
    fn place(item: &Vec<char>) -> (r: Result<usize, BulletinError>)
        ensures
            match campus_place(item@, T as int) {
                Some(i) => r == Ok::<usize, BulletinError>(i as usize) && 0 <= i < T && i
                    < Campus::count(),
                None => r == Err::<usize, BulletinError>(BulletinError::UnknownTaxonomyValue),
            },
    {
        match Campus::from_chars(item) {
            Ok(found) => {
                let i = found.index();
                if i < T {
                    assert(names_campus_at(item@, i as int));
                    let ghost chosen = campus_place(item@, T as int)->Some_0;
                    assert(names_campus_at(item@, chosen));
                    assert(chosen == i) by {
                        let c = choose|c: Campus|
                            c.label() == item@ && c.position() == chosen && forall|other: Campus|
                                other.position() < c.position() ==> other.label() != item@;
                        assert(!(c.position() < found.position()));
                        assert(!(found.position() < c.position()));
                    }
                    Ok(i)
                } else {
                    assert forall|j: int| 0 <= j < T implies !names_campus_at(item@, j) by {
                        if names_campus_at(item@, j) {
                            let c = choose|c: Campus|
                                c.label() == item@ && c.position() == j && forall|other: Campus|
                                    other.position() < c.position() ==> other.label() != item@;
                            assert(!(c.position() < found.position()));
                        }
                    }
                    Err(BulletinError::UnknownTaxonomyValue)
                }
            },
            Err(e) => {
                assert forall|j: int| 0 <= j < T implies !names_campus_at(item@, j) by {}
                Err(e)
            },
        }
    }

    /// The list that holds no campus.
    pub fn new() -> (r: Self)
        ensures
            r@ == Seq::new(T as nat, |i: int| false),
    {
        let r = Self { list: array_fill_for_copy_types(false) };
        proof {
            assert(r@ =~= Seq::new(T as nat, |i: int| false));
        }
        r
    }

    /// The list that holds the campuses that `list` names. The names
    /// `Hershey Med Ctr` and `Nurses at Hershey` are passed over. Fails
    /// exactly where one of the names has no place in the list.
    pub fn from(list: &[&str]) -> (r: Result<Self, BulletinError>)
        ensures
            match campus_flags(Seq::new(list@.len(), |k: int| list@[k]@), T as int) {
                Some(flags) => r is Ok && r->Ok_0@ == flags,
                None => r is Err && r->Err_0 == BulletinError::UnknownTaxonomyValue,
            },
    {
        let mut names: Vec<Vec<char>> = Vec::new();
        let mut i: usize = 0;
        while i < list.len()
            invariant
                i <= list.len(),
                names@.len() == i,
                forall|k: int| 0 <= k < i ==> (#[trigger] names@[k])@ == list@[k]@,
            decreases list.len() - i,
        {
            names.push(to_chars(list[i]));
            i += 1;
        }
        assert(piece_views(names@) =~= Seq::new(list@.len(), |k: int| list@[k]@));
        Self::from_names(&names)
    }

    /// The list that holds the campuses that `names` name, each name given
    /// as characters.
    pub fn from_names(names: &Vec<Vec<char>>) -> (r: Result<Self, BulletinError>)
        ensures
            match campus_flags(piece_views(names@), T as int) {
                Some(flags) => r is Ok && r->Ok_0@ == flags,
                None => r is Err && r->Err_0 == BulletinError::UnknownTaxonomyValue,
            },
    {
        let ghost views = piece_views(names@);
        let mut made = Self::new();
        let mut i: usize = 0;
        while i < names.len()
            invariant
                i <= names.len(),
                views == piece_views(names@),
                made@.len() == T,
                made.wf(),
                forall|k: int|
                    0 <= k < i && !is_passed_over(views[k])
                        ==> campus_place(#[trigger] views[k], T as int) is Some,
                forall|p: int|
                    0 <= p < T ==> (#[trigger] made@[p] <==> exists|k: int|
                        0 <= k < i && !is_passed_over(views[k])
                            && campus_place(#[trigger] views[k], T as int) == Some(p)),
            decreases names.len() - i,
        {
            if chars_are(&names[i], "Hershey Med Ctr")
                || chars_are(&names[i], "Nurses at Hershey") {
                i += 1;
                continue;
            }
            let ghost before = made@;
            match Self::place(&names[i]) {
                Ok(at) => {
                    made.list[at] = true;
                    assert forall|p: int| 0 <= p < T implies (#[trigger] made@[p]
                        <==> exists|k: int|
                        0 <= k < i + 1 && !is_passed_over(views[k])
                            && campus_place(#[trigger] views[k], T as int) == Some(p)) by {
                        if p == at {
                            assert(campus_place(views[i as int], T as int) == Some(p));
                        } else if made@[p] {
                            assert(before[p]);
                        }
                    }
                },
                Err(e) => {
                    assert(campus_place(views[i as int], T as int) is None);
                    return Err(e);
                },
            }
            i += 1;
        }
        proof {
            let flags = campus_flags(views, T as int);
            assert(flags is Some);
            assert(made@ =~= flags->Some_0);
        }
        Ok(made)
    }

    /// Whether the list holds the campus that `item` names. Fails exactly
    /// where the name has no place in the list.
    pub fn contains(&self, item: &str) -> (r: Result<bool, BulletinError>)
        ensures
            match campus_place(item@, T as int) {
                Some(i) => r == Ok::<bool, BulletinError>(self@[i]),
                None => r == Err::<bool, BulletinError>(BulletinError::UnknownTaxonomyValue),
            },
    {
        match Self::place(&to_chars(item)) {
            Ok(at) => Ok(self.list[at]),
            Err(e) => Err(e),
        }
    }

    /// Puts the campus that `item` names into the list. Fails, and leaves the
    /// list as it was, exactly where the name has no place in the list.
    pub fn add(&mut self, item: &str) -> (r: Result<(), BulletinError>)
        ensures
            match campus_place(item@, T as int) {
                Some(i) => r is Ok && final(self)@ == old(self)@.update(i, true),
                None => r == Err::<(), BulletinError>(BulletinError::UnknownTaxonomyValue)
                    && final(self)@ == old(self)@,
            },
    {
        match Self::place(&to_chars(item)) {
            Ok(at) => {
                proof {
                    use_type_invariant(&*self);
                }
                self.list[at] = true;
                Ok(())
            },
            Err(e) => Err(e),
        }
    }

    /// Takes the campus that `item` names out of the list. Fails, and leaves
    /// the list as it was, exactly where the name has no place in the list.
    pub fn remove(&mut self, item: &str) -> (r: Result<(), BulletinError>)
        ensures
            match campus_place(item@, T as int) {
                Some(i) => r is Ok && final(self)@ == old(self)@.update(i, false),
                None => r == Err::<(), BulletinError>(BulletinError::UnknownTaxonomyValue)
                    && final(self)@ == old(self)@,
            },
    {
        match Self::place(&to_chars(item)) {
            Ok(at) => {
                proof {
                    use_type_invariant(&*self);
                }
                self.list[at] = false;
                Ok(())
            },
            Err(e) => Err(e),
        }
    }

    /// The names of the campuses that the list holds, in the order of the
    /// table.
    pub fn disassemble(&self) -> (r: Vec<&'static str>)
        ensures
            r@.len() == campus_names(self@, T as nat).len(),
            forall|k: int| 0 <= k < r@.len()
                ==> (#[trigger] r@[k])@ == campus_names(self@, T as nat)[k],
    {
        let mut r: Vec<&'static str> = Vec::new();
        let mut i: usize = 0;
        while i < T
            invariant
                i <= T,
                self@.len() == T,
                r@.len() == campus_names(self@, i as nat).len(),
                forall|k: int|
                    0 <= k < r@.len() ==> (#[trigger] r@[k])@ == campus_names(self@, i as nat)[k],
            decreases T - i,
        {
            if self.list[i] {
                match Campus::at(i) {
                    Some(c) => {
                        proof {
                            let chosen = choose|c: Campus| c.position() == i;
                            assert(chosen == c);
                        }
                        r.push(c.name());
                    },
                    None => {
                        proof {
                            use_type_invariant(self);
                        }
                    },
                }
            }
            i += 1;
        }
        r
    }
}

/// Whether `name` names the attribute at place `i` of the table.
pub open spec fn names_attribute_at(name: Seq<char>, i: int) -> bool {
    exists|c: Attribute| c.label() == name && c.position() == i && forall|other: Attribute|
        other.position() < c.position() ==> other.label() != name
}

/// The place that `name` takes in a list of `size` places: the place of the
/// first attribute of the table with that name, where the list reaches that far.
pub open spec fn attribute_place(name: Seq<char>, size: int) -> Option<int> {
    if exists|i: int| 0 <= i < size && names_attribute_at(name, i) {
        Some(choose|i: int| 0 <= i < size && names_attribute_at(name, i))
    } else {
        None
    }
}

/// The flags of the list of `size` places that holds the attributes that
/// `names` name: none where one of the names has no place in the list.
pub open spec fn attribute_flags(names: Seq<Seq<char>>, size: int) -> Option<Seq<bool>> {
    if exists|k: int| 0 <= k < names.len() && attribute_place(#[trigger] names[k], size) is None {
        None
    } else {
        Some(
            Seq::new(
                size as nat,
                |i: int|
                    exists|k: int|
                        0 <= k < names.len()
                            && attribute_place(#[trigger] names[k], size) == Some(i),
            ),
        )
    }
}

/// The names of the attributes among the first `n` places of `flags` that are
/// set, in the order of the table.
pub open spec fn attribute_names(flags: Seq<bool>, n: nat) -> Seq<Seq<char>>
    decreases n,
{
    if n == 0 {
        Seq::empty()
    } else {
        let before = attribute_names(flags, (n - 1) as nat);
        if n <= flags.len() && flags[n - 1] && exists|c: Attribute| c.position() == n - 1 {
            before.push((choose|c: Attribute| c.position() == n - 1).label())
        } else {
            before
        }
    }
}

/// A set of attributes, as one flag for each of the first `T` places of the
/// table.
#[derive(Debug)]
pub struct AttributeList<const T: usize> {
    list: [bool; T],
}

impl<const T: usize> View for AttributeList<T> {
    type V = Seq<bool>;

    closed spec fn view(&self) -> Seq<bool> {
        self.list@
    }
}

impl<const T: usize> AttributeList<T> {
    #[verifier::type_invariant]
    spec fn wf(&self) -> bool {
        forall|i: int| Attribute::count() <= i < T ==> !self.list@[i]
    }

    /// The place of `item` in this list, or the failure of a name that has
    /// none.
    fn place(item: &Vec<char>) -> (r: Result<usize, BulletinError>)
        ensures
            match attribute_place(item@, T as int) {
                Some(i) => r == Ok::<usize, BulletinError>(i as usize) && 0 <= i < T && i
                    < Attribute::count(),
                None => r == Err::<usize, BulletinError>(BulletinError::UnknownTaxonomyValue),
            },
    {
        match Attribute::from_chars(item) {
            Ok(found) => {
                let i = found.index();
                if i < T {
                    assert(names_attribute_at(item@, i as int));
                    let ghost chosen = attribute_place(item@, T as int)->Some_0;
                    assert(names_attribute_at(item@, chosen));
                    assert(chosen == i) by {
                        let c = choose|c: Attribute|
                            c.label() == item@ && c.position() == chosen && forall|other: Attribute|
                                other.position() < c.position() ==> other.label() != item@;
                        assert(!(c.position() < found.position()));
                        assert(!(found.position() < c.position()));
                    }
                    Ok(i)
                } else {
                    assert forall|j: int| 0 <= j < T implies !names_attribute_at(item@, j) by {
                        if names_attribute_at(item@, j) {
                            let c = choose|c: Attribute|
                                c.label() == item@ && c.position() == j && forall|other: Attribute|
                                    other.position() < c.position() ==> other.label() != item@;
                            assert(!(c.position() < found.position()));
                        }
                    }
                    Err(BulletinError::UnknownTaxonomyValue)
                }
            },
            Err(e) => {
                assert forall|j: int| 0 <= j < T implies !names_attribute_at(item@, j) by {}
                Err(e)
            },
        }
    }

    /// The list that holds no attribute.
    pub fn new() -> (r: Self)
        ensures
            r@ == Seq::new(T as nat, |i: int| false),
    {
        let r = Self { list: array_fill_for_copy_types(false) };
        proof {
            assert(r@ =~= Seq::new(T as nat, |i: int| false));
        }
        r
    }

    /// The list that holds the attributes that `list` names. Fails
    /// exactly where one of the names has no place in the list.
    pub fn from(list: &[&str]) -> (r: Result<Self, BulletinError>)
        ensures
            match attribute_flags(Seq::new(list@.len(), |k: int| list@[k]@), T as int) {
                Some(flags) => r is Ok && r->Ok_0@ == flags,
                None => r is Err && r->Err_0 == BulletinError::UnknownTaxonomyValue,
            },
    {
        let mut names: Vec<Vec<char>> = Vec::new();
        let mut i: usize = 0;
        while i < list.len()
            invariant
                i <= list.len(),
                names@.len() == i,
                forall|k: int| 0 <= k < i ==> (#[trigger] names@[k])@ == list@[k]@,
            decreases list.len() - i,
        {
            names.push(to_chars(list[i]));
            i += 1;
        }
        assert(piece_views(names@) =~= Seq::new(list@.len(), |k: int| list@[k]@));
        Self::from_names(&names)
    }

    /// The list that holds the attributes that `names` name, each name given
    /// as characters.
    pub fn from_names(names: &Vec<Vec<char>>) -> (r: Result<Self, BulletinError>)
        ensures
            match attribute_flags(piece_views(names@), T as int) {
                Some(flags) => r is Ok && r->Ok_0@ == flags,
                None => r is Err && r->Err_0 == BulletinError::UnknownTaxonomyValue,
            },
    {
        let ghost views = piece_views(names@);
        let mut made = Self::new();
        let mut i: usize = 0;
        while i < names.len()
            invariant
                i <= names.len(),
                views == piece_views(names@),
                made@.len() == T,
                made.wf(),
                forall|k: int|
                    0 <= k < i ==> attribute_place(#[trigger] views[k], T as int) is Some,
                forall|p: int|
                    0 <= p < T ==> (#[trigger] made@[p] <==> exists|k: int|
                        0 <= k < i && attribute_place(#[trigger] views[k], T as int) == Some(p)),
            decreases names.len() - i,
        {
            let ghost before = made@;
            match Self::place(&names[i]) {
                Ok(at) => {
                    made.list[at] = true;
                    assert forall|p: int| 0 <= p < T implies (#[trigger] made@[p]
                        <==> exists|k: int|
                        0 <= k < i + 1
                            && attribute_place(#[trigger] views[k], T as int) == Some(p)) by {
                        if p == at {
                            assert(attribute_place(views[i as int], T as int) == Some(p));
                        } else if made@[p] {
                            assert(before[p]);
                        }
                    }
                },
                Err(e) => {
                    assert(attribute_place(views[i as int], T as int) is None);
                    return Err(e);
                },
            }
            i += 1;
        }
        proof {
            let flags = attribute_flags(views, T as int);
            assert(flags is Some);
            assert(made@ =~= flags->Some_0);
        }
        Ok(made)
    }

    /// Whether the attribute at place `idx` is in the list.
    pub fn get(&self, idx: usize) -> (r: bool)
        requires
            idx < T,
        ensures
            r == self@[idx as int],
    {
        self.list[idx]
    }

    /// Whether the list holds the attribute that `item` names. Fails exactly
    /// where the name has no place in the list.
    pub fn contains(&self, item: &str) -> (r: Result<bool, BulletinError>)
        ensures
            match attribute_place(item@, T as int) {
                Some(i) => r == Ok::<bool, BulletinError>(self@[i]),
                None => r == Err::<bool, BulletinError>(BulletinError::UnknownTaxonomyValue),
            },
    {
        match Self::place(&to_chars(item)) {
            Ok(at) => Ok(self.list[at]),
            Err(e) => Err(e),
        }
    }

    /// Puts the attribute that `item` names into the list. Fails, and leaves the
    /// list as it was, exactly where the name has no place in the list.
    pub fn add(&mut self, item: &str) -> (r: Result<(), BulletinError>)
        ensures
            match attribute_place(item@, T as int) {
                Some(i) => r is Ok && final(self)@ == old(self)@.update(i, true),
                None => r == Err::<(), BulletinError>(BulletinError::UnknownTaxonomyValue)
                    && final(self)@ == old(self)@,
            },
    {
        match Self::place(&to_chars(item)) {
            Ok(at) => {
                proof {
                    use_type_invariant(&*self);
                }
                self.list[at] = true;
                Ok(())
            },
            Err(e) => Err(e),
        }
    }

    /// Takes the attribute that `item` names out of the list. Fails, and leaves
    /// the list as it was, exactly where the name has no place in the list.
    pub fn remove(&mut self, item: &str) -> (r: Result<(), BulletinError>)
        ensures
            match attribute_place(item@, T as int) {
                Some(i) => r is Ok && final(self)@ == old(self)@.update(i, false),
                None => r == Err::<(), BulletinError>(BulletinError::UnknownTaxonomyValue)
                    && final(self)@ == old(self)@,
            },
    {
        match Self::place(&to_chars(item)) {
            Ok(at) => {
                proof {
                    use_type_invariant(&*self);
                }
                self.list[at] = false;
                Ok(())
            },
            Err(e) => Err(e),
        }
    }

    /// Takes every attribute out of the list.
    pub fn clear(&mut self)
        ensures
            final(self)@ == Seq::new(T as nat, |i: int| false),
    {
        self.list = array_fill_for_copy_types(false);
        proof {
            assert(self@ =~= Seq::new(T as nat, |i: int| false));
        }
    }

    /// Whether the list holds no attribute.
    pub fn is_empty(&self) -> (r: bool)
        ensures
            r == (forall|i: int| 0 <= i < T ==> !self@[i]),
    {
        let mut i: usize = 0;
        while i < T
            invariant
                i <= T,
                forall|j: int| 0 <= j < i ==> !self@[j],
            decreases T - i,
        {
            if self.list[i] {
                assert(self@[i as int]);
                return false;
            }
            i += 1;
        }
        true
    }

    /// The names of the attributes that the list holds, in the order of the
    /// table.
    pub fn disassemble(&self) -> (r: Vec<&'static str>)
        ensures
            r@.len() == attribute_names(self@, T as nat).len(),
            forall|k: int| 0 <= k < r@.len()
                ==> (#[trigger] r@[k])@ == attribute_names(self@, T as nat)[k],
    {
        let mut r: Vec<&'static str> = Vec::new();
        let mut i: usize = 0;
        while i < T
            invariant
                i <= T,
                self@.len() == T,
                r@.len() == attribute_names(self@, i as nat).len(),
                forall|k: int|
                    0 <= k < r@.len()
                        ==> (#[trigger] r@[k])@ == attribute_names(self@, i as nat)[k],
            decreases T - i,
        {
            if self.list[i] {
                match Attribute::at(i) {
                    Some(c) => {
                        proof {
                            let chosen = choose|c: Attribute| c.position() == i;
                            assert(chosen == c);
                        }
                        r.push(c.name());
                    },
                    None => {
                        proof {
                            use_type_invariant(self);
                        }
                    },
                }
            }
            i += 1;
        }
        r
    }
}

} // verus!
