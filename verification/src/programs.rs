//! Undergraduate programs: what the catalog's list of programs says of each,
//! read from the plain text of its entry.

use vstd::prelude::*;
use crate::error::BulletinError;
use crate::taxonomy::{campus_flags, campus_names, CampusList, College};
use crate::text::{
    append_chars, chars_are, find_first, find_last, from_chars, has_infix, has_prefix,
    is_first_infix, is_last_infix, join, join_strs, replace, replace_chars, slice_of,
    split_chars, split_spec, starts_with, str_views, to_chars, trim, trim_chars,
};

verus! {

/// The kind of a program, with the name of its degree as the catalog writes
/// it. A degree also has the campuses that offer it.
#[derive(Debug)]
pub enum UndergraduateProgramType {
    BaccalaureateDegree(String, CampusList<21>),
    AssociateDegree(String, CampusList<21>),
    Minor(String),
    Certificate(String),
    ROTC(String),
}

/// The kind of a program, as a mathematical value.
pub enum ProgramTypeView {
    BaccalaureateDegree(Seq<char>, Seq<bool>),
    AssociateDegree(Seq<char>, Seq<bool>),
    Minor(Seq<char>),
    Certificate(Seq<char>),
    ROTC(Seq<char>),
}

impl View for UndergraduateProgramType {
    type V = ProgramTypeView;

    open spec fn view(&self) -> ProgramTypeView {
        match self {
            UndergraduateProgramType::BaccalaureateDegree(name, campuses) => {
                ProgramTypeView::BaccalaureateDegree(name@, campuses@)
            },
            UndergraduateProgramType::AssociateDegree(name, campuses) => {
                ProgramTypeView::AssociateDegree(name@, campuses@)
            },
            UndergraduateProgramType::Minor(name) => ProgramTypeView::Minor(name@),
            UndergraduateProgramType::Certificate(name) => ProgramTypeView::Certificate(name@),
            UndergraduateProgramType::ROTC(name) => ProgramTypeView::ROTC(name@),
        }
    }
}

/// An undergraduate program.
#[derive(Debug)]
pub struct UndergraduateProgram {
    pub title: String,
    pub link: String,
    pub program_type: UndergraduateProgramType,
    pub image: String,
    pub keywords: Vec<String>,
    /// The college of the program; a program that rests on others has none.
    pub college: Option<College>,
}

/// The reader of the catalog's list of programs.
pub struct ScrapeUndergraduatePrograms;

/// The title and the kind of the programs whose titles the catalog writes
/// in a way of their own.
pub open spec fn noisy_title(raw: Seq<char>) -> Option<(Seq<char>, Seq<char>)> {
    if raw == "Science, B.S./Business Administration, M.B.A."@ {
        Some(("Science, B.S./Business Administration, M.B.A."@, "B.S."@))
    } else if raw == "Air Force ROTC"@ {
        Some(("Air Force ROTC"@, "ROTC"@))
    } else if raw == "Army ROTC"@ {
        Some(("Army ROTC"@, "ROTC"@))
    } else if raw == "Naval Science/Naval Reserve Officer Training Corps (NROTC)"@ {
        Some(("Naval Science/Naval ROTC"@, "ROTC"@))
    } else if raw == "Bachelor of Philosophy Degree"@ {
        Some(("Philosophy"@, "B.Phil."@))
    } else if raw == "Global and International Studies Major"@ {
        Some(("Global and International Studies"@, "B."@))
    } else {
        None
    }
}

/// `s` without the commas at its start.
pub open spec fn strip_leading_commas(s: Seq<char>) -> Seq<char>
    decreases s.len(),
{
    if s.len() > 0 && s[0] == ',' {
        strip_leading_commas(s.drop_first())
    } else {
        s
    }
}

/// The title and the kind that a regular title writes: the title is what
/// stands before the last comma that a space follows, the kind what stands
/// behind it, up to an opening parenthesis; both trimmed.
pub open spec fn regular_title(raw: Seq<char>) -> (Seq<char>, Seq<char>) {
    let at = choose|i: int| is_last_infix(raw, ", "@, i);
    let title = trim(raw.subrange(0, at));
    let details = trim(strip_leading_commas(raw.subrange(at, raw.len() as int)));
    if has_infix(details, "("@) {
        let end = choose|k: int| is_first_infix(details, "("@, k);
        (title, trim(details.subrange(0, end)))
    } else {
        (title, details)
    }
}

/// The title and the kind that the title `raw` of a program writes.
pub open spec fn title_details(raw: Seq<char>) -> (Seq<char>, Seq<char>) {
    match noisy_title(raw) {
        Some(details) => details,
        None => regular_title(raw),
    }
}

/// `s` without the commas at its start.
pub fn strip_commas(s: &Vec<char>) -> (r: Vec<char>)
    ensures
        r@ == strip_leading_commas(s@),
{
    let n: usize = s.len();
    let mut start: usize = 0;
    assert(s@.subrange(0, n as int) =~= s@);
    while start < n && s[start] == ','
        invariant
            n == s.len(),
            start <= n,
            strip_leading_commas(s@) == strip_leading_commas(s@.subrange(start as int, n as int)),
        decreases n - start,
    {
        assert(s@.subrange(start as int, n as int).drop_first() =~= s@.subrange(
            start + 1,
            n as int,
        ));
        start += 1;
    }
    slice_of(s, start, n)
}

impl ScrapeUndergraduatePrograms {
    /// The title and the kind of a program whose title the catalog writes
    /// in a way of its own; `None` for every other title.
    pub fn manage_noisy_titles(raw_title: &str) -> (r: Option<(&'static str, &'static str)>)
        ensures
            match noisy_title(raw_title@) {
                Some(details) => r is Some && r->Some_0.0@ == details.0 && r->Some_0.1@
                    == details.1,
                None => r is None,
            },
    {
        let raw = to_chars(raw_title);
        if chars_are(&raw, "Science, B.S./Business Administration, M.B.A.") {
            Some(("Science, B.S./Business Administration, M.B.A.", "B.S."))
        } else if chars_are(&raw, "Air Force ROTC") {
            Some(("Air Force ROTC", "ROTC"))
        } else if chars_are(&raw, "Army ROTC") {
            Some(("Army ROTC", "ROTC"))
        } else if chars_are(&raw, "Naval Science/Naval Reserve Officer Training Corps (NROTC)") {
            Some(("Naval Science/Naval ROTC", "ROTC"))
        } else if chars_are(&raw, "Bachelor of Philosophy Degree") {
            Some(("Philosophy", "B.Phil."))
        } else if chars_are(&raw, "Global and International Studies Major") {
            Some(("Global and International Studies", "B."))
        } else {
            None
        }
    }

    /// The title and the kind that the title of a program writes. A regular
    /// title has a comma with a space behind it.
    pub fn extract_program_title_details(raw_title: &str) -> (r: (String, String))
        requires
            noisy_title(raw_title@) is Some || has_infix(raw_title@, ", "@),
        ensures
            r.0@ == title_details(raw_title@).0,
            r.1@ == title_details(raw_title@).1,
    {
        match Self::manage_noisy_titles(raw_title) {
            Some(details) => {
                return (String::from_str(details.0), String::from_str(details.1));
            },
            None => {},
        }
        let raw = to_chars(raw_title);
        let comma = to_chars(", ");
        let at = match find_last(&raw, &comma) {
            Some(at) => at,
            None => {
                assert(false);
                0
            },
        };
        assert((choose|i: int| is_last_infix(raw@, ", "@, i)) == at) by {
            let chosen = choose|i: int| is_last_infix(raw@, ", "@, i);
            assert(is_last_infix(raw@, ", "@, at as int));
            assert(!(chosen < at));
            assert(!(at < chosen));
        }
        let title = trim_chars(&slice_of(&raw, 0, at));
        let details = trim_chars(&strip_commas(&slice_of(&raw, at, raw.len())));
        let paren = to_chars("(");
        match find_first(&details, &paren) {
            Some(end) => {
                assert((choose|k: int| is_first_infix(details@, "("@, k)) == end) by {
                    let chosen = choose|k: int| is_first_infix(details@, "("@, k);
                    assert(is_first_infix(details@, "("@, end as int));
                    assert(!(chosen < end));
                    assert(!(end < chosen));
                }
                let kind = trim_chars(&slice_of(&details, 0, end));
                (from_chars(&title), from_chars(&kind))
            },
            None => (from_chars(&title), from_chars(&details)),
        }
    }
}

/// Whether `raw` names a kind of program that is no degree.
pub open spec fn is_plain_kind(raw: Seq<char>) -> bool {
    raw == "Minor"@ || raw == "Certificate"@ || raw == "ROTC"@
}

/// Whether `raw` names a degree: a baccalaureate `B.` or an associate `A.`
/// degree.
pub open spec fn is_degree(raw: Seq<char>) -> bool {
    has_prefix(raw, "B."@) || has_prefix(raw, "A."@)
}

/// The campuses that the text `campuses` lists, parted by a comma and a
/// space.
pub open spec fn campus_names_in(campuses: Seq<char>) -> Seq<Seq<char>> {
    split_spec(trim(campuses), ", "@)
}

/// The kind of program that `raw` names. A degree has the campuses that
/// `campuses` lists; it fails where one of them is no campus.
pub open spec fn program_type_spec(raw: Seq<char>, campuses: Option<Seq<char>>) -> Result<
    ProgramTypeView,
    BulletinError,
> {
    if raw == "Minor"@ {
        Ok(ProgramTypeView::Minor(raw))
    } else if raw == "Certificate"@ {
        Ok(ProgramTypeView::Certificate(raw))
    } else if raw == "ROTC"@ {
        Ok(ProgramTypeView::ROTC(raw))
    } else {
        match campus_flags(campus_names_in(campuses->Some_0), 21) {
            Some(flags) => if has_prefix(raw, "B."@) {
                Ok(ProgramTypeView::BaccalaureateDegree(raw, flags))
            } else {
                Ok(ProgramTypeView::AssociateDegree(raw, flags))
            },
            None => Err(BulletinError::UnknownTaxonomyValue),
        }
    }
}

/// Whether `college` is the college that the catalog lists under `name`.
pub open spec fn is_college_named(college: College, name: Seq<char>) -> bool {
    college.label() == name && forall|other: College|
        other.position() < college.position() ==> other.label() != name
}

/// What the entry of a program says.
#[derive(Debug)]
pub struct ProgramDetails {
    pub program_title: String,
    pub program_type: UndergraduateProgramType,
    pub program_college: Option<College>,
    pub program_keywords: Vec<String>,
}

/// Whether the college of the program with the title `raw` is written in
/// its title, not in its keywords.
pub open spec fn college_in_title(raw: Seq<char>) -> Option<College> {
    if raw == "Multidisciplinary Studies, B.A. (University College)"@ {
        Some(College::UniversityCollege)
    } else if raw == "Science, B.S. (Behrend)"@ {
        Some(College::Behrend)
    } else {
        None
    }
}

impl ScrapeUndergraduatePrograms {
    /// The kind of program that `raw_program_type` names, with the campuses
    /// that `campuses` lists where it is a degree. Fails exactly where one of
    /// these is no campus.
    pub fn extract_program_type(raw_program_type: &str, campuses: Option<&str>) -> (r: Result<
        UndergraduateProgramType,
        BulletinError,
    >)
        requires
            is_plain_kind(raw_program_type@) || (campuses is Some && is_degree(
                raw_program_type@,
            )),
        ensures
            match program_type_spec(
                raw_program_type@,
                match campuses {
                    Some(text) => Some(text@),
                    None => None,
                },
            ) {
                Ok(kind) => r is Ok && r->Ok_0@ == kind,
                Err(e) => r is Err && r->Err_0 == e,
            },
    {
        let raw = to_chars(raw_program_type);
        if chars_are(&raw, "Minor") {
            return Ok(UndergraduateProgramType::Minor(String::from_str(raw_program_type)));
        }
        if chars_are(&raw, "Certificate") {
            return Ok(UndergraduateProgramType::Certificate(String::from_str(raw_program_type)));
        }
        if chars_are(&raw, "ROTC") {
            return Ok(UndergraduateProgramType::ROTC(String::from_str(raw_program_type)));
        }
        let text = match campuses {
            Some(text) => text,
            None => {
                assert(false);
                ""
            },
        };
        proof {
            reveal_strlit(", ");
        }
        let names = split_chars(&trim_chars(&to_chars(text)), &to_chars(", "));
        match CampusList::<21>::from_names(&names) {
            Ok(list) => {
                if starts_with(&raw, &to_chars("B.")) {
                    Ok(
                        UndergraduateProgramType::BaccalaureateDegree(
                            String::from_str(raw_program_type),
                            list,
                        ),
                    )
                } else {
                    Ok(
                        UndergraduateProgramType::AssociateDegree(
                            String::from_str(raw_program_type),
                            list,
                        ),
                    )
                }
            },
            Err(e) => Err(e),
        }
    }

    /// What the entry of a program says, given its title, its keywords and
    /// the text that lists its campuses. The college is none for ROTC; it is
    /// written in the title of two programs, and is else the second keyword.
    /// Fails exactly where a campus or the college is not known.
    pub fn extract_program_details(
        raw_title: &str,
        keywords: &Vec<&str>,
        campuses: Option<&str>,
    ) -> (r: Result<ProgramDetails, BulletinError>)
        requires
            noisy_title(raw_title@) is Some || has_infix(raw_title@, ", "@),
            is_plain_kind(title_details(raw_title@).1) || (campuses is Some && is_degree(
                title_details(raw_title@).1,
            )),
            title_details(raw_title@).1 != "ROTC"@ && college_in_title(raw_title@) is None
                ==> keywords.len() >= 2,
        ensures
            match program_type_spec(
                title_details(raw_title@).1,
                match campuses {
                    Some(text) => Some(text@),
                    None => None,
                },
            ) {
                Err(e) => r is Err && r->Err_0 == e,
                Ok(kind) => if kind is ROTC {
                    r is Ok && r->Ok_0.program_college is None
                } else if college_in_title(raw_title@) is Some {
                    r is Ok && r->Ok_0.program_college == college_in_title(raw_title@)
                } else if exists|c: College| c.label() == keywords@[1]@ {
                    r is Ok && r->Ok_0.program_college is Some && is_college_named(
                        r->Ok_0.program_college->Some_0,
                        keywords@[1]@,
                    )
                } else {
                    r is Err && r->Err_0 == BulletinError::UnknownTaxonomyValue
                },
            },
            r is Ok ==> r->Ok_0.program_title@ == title_details(raw_title@).0,
            r is Ok ==> Ok::<ProgramTypeView, BulletinError>(r->Ok_0.program_type@)
                == program_type_spec(
                title_details(raw_title@).1,
                match campuses {
                    Some(text) => Some(text@),
                    None => None,
                },
            ),
            r is Ok ==> r->Ok_0.program_keywords@.len() == keywords@.len() && forall|k: int|
                0 <= k < keywords@.len() ==> (#[trigger] r->Ok_0.program_keywords@[k])@
                    == keywords@[k]@,
    {
        let (program_title, raw_program_type) = Self::extract_program_title_details(raw_title);
        let program_type = match Self::extract_program_type(raw_program_type.as_str(), campuses) {
            Ok(kind) => kind,
            Err(e) => {
                return Err(e);
            },
        };
        let raw = to_chars(raw_title);
        let program_college = match program_type {
            UndergraduateProgramType::ROTC(_) => None,
            _ => {
                if chars_are(&raw, "Multidisciplinary Studies, B.A. (University College)") {
                    Some(College::UniversityCollege)
                } else if chars_are(&raw, "Science, B.S. (Behrend)") {
                    Some(College::Behrend)
                } else {
                    proof {
                        reveal_strlit("ROTC");
                        reveal_strlit("Minor");
                        reveal_strlit("Certificate");
                        assert("ROTC"@.len() == 4);
                        assert("Minor"@.len() == 5);
                        assert("Certificate"@.len() == 11);
                        assert(!(program_type@ is ROTC));
                        assert(title_details(raw_title@).1 != "ROTC"@);
                    }
                    match College::from(keywords[1]) {
                        Ok(college) => Some(college),
                        Err(e) => {
                            return Err(e);
                        },
                    }
                }
            },
        };
        let mut program_keywords: Vec<String> = Vec::new();
        let mut i: usize = 0;
        while i < keywords.len()
            invariant
                i <= keywords.len(),
                program_keywords@.len() == i,
                forall|k: int| 0 <= k < i ==> (#[trigger] program_keywords@[k])@ == keywords@[k]@,
            decreases keywords.len() - i,
        {
            program_keywords.push(String::from_str(keywords[i]));
            i += 1;
        }
        Ok(ProgramDetails { program_title, program_type, program_college, program_keywords })
    }
}

/// The address of the catalog.
pub const BASE_URL: &'static str = "https://bulletins.psu.edu";

/// The college of a program as the text of the program shows it: its name
/// in square brackets behind a space, or nothing.
pub open spec fn college_text(college: Option<College>) -> Seq<char> {
    match college {
        Some(c) => " ["@ + c.label() + "]"@,
        None => Seq::empty(),
    }
}

/// The last line of the text of a program: for a degree its name and the
/// campuses that offer it, else the kind alone.
pub open spec fn kind_line(kind: ProgramTypeView) -> Seq<char> {
    match kind {
        ProgramTypeView::BaccalaureateDegree(name, flags) => "\n\t -> ["@ + name + "] @ "@ + join(
            campus_names(flags, 21),
            ", "@,
        ),
        ProgramTypeView::AssociateDegree(name, flags) => "\n\t -> ["@ + name + "] @ "@ + join(
            campus_names(flags, 21),
            ", "@,
        ),
        ProgramTypeView::Minor(_) => "\n\t -> Minor"@,
        ProgramTypeView::Certificate(_) => "\n\t -> Certificate"@,
        ProgramTypeView::ROTC(_) => "\n\t -> ROTC"@,
    }
}

/// The text of a program: its title and college, then its link, its image
/// and its kind, each on a line of its own.
pub open spec fn program_text(
    title: Seq<char>,
    college: Option<College>,
    link: Seq<char>,
    image: Seq<char>,
    kind: ProgramTypeView,
) -> Seq<char> {
    title + college_text(college) + "\n -> "@ + link + "\n -> "@ + image + kind_line(kind)
}

/// The address of a page of the catalog, given its path from the root,
/// which begins with a slash.
pub open spec fn program_link_spec(raw_link: Seq<char>) -> Seq<char> {
    BASE_URL@ + "/"@ + raw_link.drop_first()
}

/// The address of the full image of a program, given the path of its
/// smaller form.
pub open spec fn program_image_spec(raw_image: Seq<char>) -> Seq<char> {
    BASE_URL@ + "/"@ + replace(raw_image.drop_first(), "-med"@, Seq::empty())
}

/// The lines that a degree adds to the text of a program.
fn degree_line(name: &String, campuses: &CampusList<21>) -> (r: Vec<char>)
    ensures
        r@ == "\n\t -> ["@ + name@ + "] @ "@ + join(campus_names(campuses@, 21), ", "@),
{
    let mut r = to_chars("\n\t -> [");
    append_chars(&mut r, &to_chars(name.as_str()));
    append_chars(&mut r, &to_chars("] @ "));
    let names = campuses.disassemble();
    assert(str_views(names@) =~= campus_names(campuses@, 21));
    append_chars(&mut r, &join_strs(&names, ", "));
    r
}

impl UndergraduateProgram {
    /// The text of the program, for display.
    pub fn to_string(&self) -> (r: String)
        ensures
            r@ == program_text(
                self.title@,
                self.college,
                self.link@,
                self.image@,
                self.program_type@,
            ),
    {
        let mut r = to_chars(self.title.as_str());
        match self.college {
            Some(college) => {
                append_chars(&mut r, &to_chars(" ["));
                append_chars(&mut r, &to_chars(college.name()));
                append_chars(&mut r, &to_chars("]"));
                assert(r@ =~= self.title@ + college_text(self.college));
            },
            None => {
                assert(r@ =~= self.title@ + college_text(self.college));
            },
        }
        append_chars(&mut r, &to_chars("\n -> "));
        append_chars(&mut r, &to_chars(self.link.as_str()));
        append_chars(&mut r, &to_chars("\n -> "));
        append_chars(&mut r, &to_chars(self.image.as_str()));
        let line = match &self.program_type {
            UndergraduateProgramType::BaccalaureateDegree(name, campuses) => degree_line(
                name,
                campuses,
            ),
            UndergraduateProgramType::AssociateDegree(name, campuses) => degree_line(
                name,
                campuses,
            ),
            UndergraduateProgramType::Minor(_) => to_chars("\n\t -> Minor"),
            UndergraduateProgramType::Certificate(_) => to_chars("\n\t -> Certificate"),
            UndergraduateProgramType::ROTC(_) => to_chars("\n\t -> ROTC"),
        };
        append_chars(&mut r, &line);
        from_chars(&r)
    }
}

impl ScrapeUndergraduatePrograms {
    /// The address of the page of a program, given its path from the root of
    /// the catalog.
    pub fn program_link(raw_link: &str) -> (r: String)
        requires
            raw_link@.len() > 0,
        ensures
            r@ == program_link_spec(raw_link@),
    {
        let raw = to_chars(raw_link);
        let mut r = to_chars(BASE_URL);
        append_chars(&mut r, &to_chars("/"));
        let rest = slice_of(&raw, 1, raw.len());
        assert(rest@ =~= raw_link@.drop_first());
        append_chars(&mut r, &rest);
        from_chars(&r)
    }

    /// The address of the full image of a program, given the path of its
    /// smaller form from the root of the catalog.
    pub fn program_image(raw_image: &str) -> (r: String)
        requires
            raw_image@.len() > 0,
        ensures
            r@ == program_image_spec(raw_image@),
    {
        let raw = to_chars(raw_image);
        let mut r = to_chars(BASE_URL);
        append_chars(&mut r, &to_chars("/"));
        let rest = slice_of(&raw, 1, raw.len());
        assert(rest@ =~= raw_image@.drop_first());
        let none: Vec<char> = Vec::new();
        assert(none@ =~= Seq::<char>::empty());
        append_chars(&mut r, &replace_chars(&rest, &to_chars("-med"), &none));
        from_chars(&r)
    }
}

} // verus!
