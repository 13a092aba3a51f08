//! Courses: what the catalog's pages of course descriptions say of each
//! course, read from the plain text of its entry.

use vstd::prelude::*;
use crate::error::BulletinError;
use crate::identifier::{parse_identifier, CourseIdentifier, CourseKey};
use crate::requirements::{
    chunk_views, classify, classify_spec, CourseRequirementTreeDetails, RequirementsView,
    UndergraduateCourseDeviantFlags, UndergraduateCourseFlags, UndergraduateCourseRequirements,
};
use crate::exclusion::requirements_avoid;
use crate::taxonomy::{attribute_place, AttributeList};
use crate::text::{
    chars_are, find_first, find_last, from_chars, has_infix, has_prefix, is_first_infix,
    is_last_infix, piece_views, replace, replace_chars, slice_of, split_chars, split_spec,
    starts_with, to_chars, to_upper, trim, trim_all_chars, trim_all_spec, trim_chars, upper,
};

verus! {

/// The reader of the pages of course descriptions.
pub struct ScrapeUndergraduateCourses;

/// The reader of the list of course groups.
pub struct ScrapeUndergraduateCourseGroups;

/// A group of courses: its code, its title and the path of its page.
#[derive(Debug)]
pub struct CourseGroupIdentifier {
    pub code: String,
    pub title: String,
    pub raw_link: String,
}

/// The attribute name that a misspelt one stands for; any other name
/// unchanged.
pub open spec fn fixed_attribute(name: Seq<char>) -> Seq<char> {
    if name == "General Education: Social and Behavioral Scien (GS)"@ {
        "General Education: Social and Behavioral Sciences (GS)"@
    } else {
        name
    }
}

/// Whether an entry of the extra details says nothing that is read.
pub open spec fn noisy_extra_detail(text: Seq<char>) -> bool {
    has_prefix(text, "GenEd Learning Objective:"@) || text == "Full-Time Equivalent Course"@
        || text
        == "Faculty approval of work experience proposal including employment agreement with an approved supervisor (e.g., registered architect or other approved professional)."@
        || text == "."@
}

/// Whether a title is that of an entry that is no course.
pub open spec fn noisy_course_title(title: Seq<char>) -> bool {
    title == "EDAB TEMPH: Temporary Education Abroad Registration"@ || title
        == "EDAB TEMPI: Temporary Education Abroad Registration"@
}

/// Whether an entry without a label in bold announces requirements.
pub open spec fn is_requirement_label(text: Seq<char>) -> bool {
    text == "Prerequisite"@ || text == "Prerequisites"@ || text
        == "Enforced Prerequisite at Enrollment"@ || text == "Enforced Corequisite at Enrollment"@
        || text == "Recommended Preparation"@
}

/// Whether an entry announces a cross-list.
pub open spec fn is_crosslist_label(text: Seq<char>) -> bool {
    has_prefix(text, "Cross-listed with:"@) || text == "Cross-Listed"@
}

/// `s` without the closing parentheses at its end.
pub open spec fn strip_trailing_parens(s: Seq<char>) -> Seq<char>
    decreases s.len(),
{
    if s.len() > 0 && s.last() == ')' {
        strip_trailing_parens(s.drop_last())
    } else {
        s
    }
}

/// The title and the code that the entry `text` of the list of course
/// groups writes: the code stands at the end in parentheses, behind a
/// space. None where no parenthesis opens behind a space.
pub open spec fn group_entry(text: Seq<char>) -> Option<(Seq<char>, Seq<char>)> {
    if has_infix(text, " ("@) {
        let at = choose|i: int| is_last_infix(text, " ("@, i);
        Some(
            (
                text.subrange(0, at),
                strip_trailing_parens(text.subrange(at + 2, text.len() as int)),
            ),
        )
    } else {
        None
    }
}

/// The identifier text and the title that the heading `raw` of a course
/// writes: they stand before and behind the first colon that a space
/// follows. None where there is none.
pub open spec fn heading_parts(raw: Seq<char>) -> Option<(Seq<char>, Seq<char>)> {
    if has_infix(raw, ": "@) {
        let at = choose|i: int| is_first_infix(raw, ": "@, i);
        Some((raw.subrange(0, at), raw.subrange(at + 2, raw.len() as int)))
    } else {
        None
    }
}

impl CourseGroupIdentifier {
    /// The group that an entry of the list writes, with the path of its
    /// page. None where the entry shows no code.
    pub fn parse(text: &str, raw_link: &str) -> (r: Option<CourseGroupIdentifier>)
        ensures
            match group_entry(text@) {
                Some(entry) => r is Some && r->Some_0.title@ == entry.0 && r->Some_0.code@
                    == entry.1 && r->Some_0.raw_link@ == raw_link@,
                None => r is None,
            },
    {
        let chars = to_chars(text);
        let opening = to_chars(" (");
        proof {
            reveal_strlit(" (");
        }
        match find_last(&chars, &opening) {
            Some(at) => {
                assert((choose|i: int| is_last_infix(text@, " ("@, i)) == at) by {
                    let chosen = choose|i: int| is_last_infix(text@, " ("@, i);
                    assert(is_last_infix(text@, " ("@, at as int));
                    assert(!(chosen < at));
                    assert(!(at < chosen));
                }
                let title = slice_of(&chars, 0, at);
                let n: usize = chars.len();
                let mut end: usize = n;
                assert(chars@.subrange(at + 2, n as int) =~= text@.subrange(
                    at + 2,
                    text@.len() as int,
                ));
                while end > at + 2 && chars[end - 1] == ')'
                    invariant
                        n == chars.len(),
                        at + 2 <= end <= n,
                        strip_trailing_parens(chars@.subrange(at + 2, n as int))
                            == strip_trailing_parens(chars@.subrange(at + 2, end as int)),
                    decreases end,
                {
                    assert(chars@.subrange(at + 2, end as int).drop_last() =~= chars@.subrange(
                        at + 2,
                        end - 1,
                    ));
                    end -= 1;
                }
                let code = slice_of(&chars, at + 2, end);
                Some(
                    CourseGroupIdentifier {
                        code: from_chars(&code),
                        title: from_chars(&title),
                        raw_link: String::from_str(raw_link),
                    },
                )
            },
            None => None,
        }
    }
}

impl ScrapeUndergraduateCourses {
    /// The attribute name that a misspelt one stands for; any other name
    /// unchanged.
    pub fn fix_attribute_typos(attribute: &str) -> (r: &str)
        ensures
            r@ == fixed_attribute(attribute@),
    {
        if chars_are(
            &to_chars(attribute),
            "General Education: Social and Behavioral Scien (GS)",
        ) {
            "General Education: Social and Behavioral Sciences (GS)"
        } else {
            attribute
        }
    }

    /// Whether an entry of the extra details says nothing that is read.
    pub fn is_noisy_extra_detail(attribute: &str) -> (r: bool)
        ensures
            r == noisy_extra_detail(attribute@),
    {
        let chars = to_chars(attribute);
        starts_with(&chars, &to_chars("GenEd Learning Objective:")) || chars_are(
            &chars,
            "Full-Time Equivalent Course",
        ) || chars_are(
            &chars,
            "Faculty approval of work experience proposal including employment agreement with an approved supervisor (e.g., registered architect or other approved professional).",
        ) || chars_are(&chars, ".")
    }

    /// Whether a title is that of an entry that is no course.
    pub fn is_noisy_course_title(title: &str) -> (r: bool)
        ensures
            r == noisy_course_title(title@),
    {
        let chars = to_chars(title);
        chars_are(&chars, "EDAB TEMPH: Temporary Education Abroad Registration") || chars_are(
            &chars,
            "EDAB TEMPI: Temporary Education Abroad Registration",
        )
    }

    /// The identifier and the title that the heading of a course writes.
    /// None where the heading has no colon with a space behind it, or where
    /// what stands before it is no identifier.
    pub fn parse_course_title(raw_title: &str) -> (r: Option<(CourseIdentifier, String)>)
        ensures
            match heading_parts(raw_title@) {
                Some(parts) => match parse_identifier(parts.0) {
                    Some(k) => r is Some && r->Some_0.0@ == k && r->Some_0.1@ == trim_all_spec(
                        parts.1,
                    ),
                    None => r is None,
                },
                None => r is None,
            },
    {
        let chars = to_chars(raw_title);
        let colon = to_chars(": ");
        proof {
            reveal_strlit(": ");
        }
        match find_first(&chars, &colon) {
            Some(at) => {
                assert((choose|i: int| is_first_infix(raw_title@, ": "@, i)) == at) by {
                    let chosen = choose|i: int| is_first_infix(raw_title@, ": "@, i);
                    assert(is_first_infix(raw_title@, ": "@, at as int));
                    assert(!(chosen < at));
                    assert(!(at < chosen));
                }
                let head = slice_of(&chars, 0, at);
                let tail = slice_of(&chars, at + 2, chars.len());
                match CourseIdentifier::from_chars(&head) {
                    Ok(identifier) => Some((identifier, from_chars(&trim_all_chars(&tail)))),
                    Err(_) => None,
                }
            },
            None => None,
        }
    }

    /// Reads the requirement text of the course `identifier`, given as the
    /// fragments of its block in order, into one tree for each category and
    /// the flags. The course itself is in none of the trees.
    pub fn create_requirement_trees(text_chunks: Vec<&str>, identifier: &CourseIdentifier) -> (r:
        CourseRequirementTreeDetails)
        ensures
            r@ == classify_spec(chunk_views(text_chunks@), identifier@),
            requirements_avoid(r@.requirements, identifier@),
    {
        classify(&text_chunks, identifier)
    }
}

/// One entry of the block of extra details of a course: whether it holds a
/// label in bold, its first text, and the text of each of its parts in
/// order.
#[derive(Debug)]
pub struct ExtraDetail {
    pub has_label: bool,
    pub text: String,
    pub fragments: Vec<String>,
}

/// An entry of the extra details, as mathematical values.
pub struct DetailView {
    pub has_label: bool,
    pub text: Seq<char>,
    pub fragments: Seq<Seq<char>>,
}

/// The character sequences of `texts`.
pub open spec fn string_views(texts: Seq<String>) -> Seq<Seq<char>> {
    Seq::new(texts.len(), |i: int| texts[i]@)
}

impl View for ExtraDetail {
    type V = DetailView;

    open spec fn view(&self) -> DetailView {
        DetailView {
            has_label: self.has_label,
            text: self.text@,
            fragments: string_views(self.fragments@),
        }
    }
}

/// The views of the entries of `details`.
pub open spec fn detail_views(details: Seq<ExtraDetail>) -> Seq<DetailView> {
    Seq::new(details.len(), |i: int| details[i]@)
}

/// The texts among which the courses of a cross-list are looked for: the
/// parts of the entry where it has more than one, and else the pieces of
/// its text between commas, the label left out.
pub open spec fn crosslist_candidates(text: Seq<char>, fragments: Seq<Seq<char>>) -> Seq<
    Seq<char>,
> {
    if fragments.len() > 1 {
        fragments
    } else {
        split_spec(trim(replace(text, "Cross-listed with:"@, Seq::empty())), ","@)
    }
}

/// The courses that the texts of `candidates` write, in order; a text that
/// is no identifier is passed over. Each text is read in upper case, with
/// its whitespace collapsed.
pub open spec fn crosslist_courses(candidates: Seq<Seq<char>>) -> Seq<CourseKey>
    decreases candidates.len(),
{
    if candidates.len() == 0 {
        Seq::empty()
    } else {
        let before = crosslist_courses(candidates.drop_last());
        match parse_identifier(trim_all_spec(upper(candidates.last()))) {
            Some(k) => before.push(k),
            None => before,
        }
    }
}

/// The keys of the identifiers of `courses`.
pub open spec fn course_keys(courses: Seq<CourseIdentifier>) -> Seq<CourseKey> {
    Seq::new(courses.len(), |i: int| courses[i]@)
}

/// What the extra details of a course say.
pub struct CourseExtraDetails {
    pub attribute_list: AttributeList<22>,
    pub crosslist: Option<Vec<CourseIdentifier>>,
    pub requirements: UndergraduateCourseRequirements,
    pub flags: UndergraduateCourseFlags,
}

/// What the extra details of a course say, as mathematical values.
pub struct ExtraView {
    pub attributes: Seq<bool>,
    pub crosslist: Option<Seq<CourseKey>>,
    pub requirements: RequirementsView,
    pub flags: UndergraduateCourseFlags,
}

impl View for CourseExtraDetails {
    type V = ExtraView;

    open spec fn view(&self) -> ExtraView {
        ExtraView {
            attributes: self.attribute_list@,
            crosslist: match self.crosslist {
                Some(courses) => Some(course_keys(courses@)),
                None => None,
            },
            requirements: self.requirements@,
            flags: self.flags,
        }
    }
}

/// The extra details of a course of which nothing has been read yet.
pub open spec fn extra_start() -> ExtraView {
    ExtraView {
        attributes: Seq::new(22, |i: int| false),
        crosslist: None,
        requirements: RequirementsView {
            prerequisites: None,
            concurrent: None,
            corequisites: None,
            recommended: None,
        },
        flags: UndergraduateCourseFlags {
            is_prerequisite_concurrent_separate: false,
            deviant: UndergraduateCourseDeviantFlags {
                empty_crosslist: false,
                unknown_requirement: false,
            },
        },
    }
}

/// `found` with what the classifier finds in the parts of the entry
/// `detail`. The classifier reads an entry as a whole: its four trees come
/// together, with the two flags that tell of them, and take the place of
/// what an earlier entry gave; the trees of two entries are not merged. The
/// flag of a cross-list without a course tells of another entry, and stays
/// as it is.
pub open spec fn with_requirements(
    found: ExtraView,
    detail: DetailView,
    own: CourseKey,
) -> ExtraView {
    let read = classify_spec(detail.fragments, own);
    ExtraView {
        requirements: read.requirements,
        flags: UndergraduateCourseFlags {
            is_prerequisite_concurrent_separate: read.flags.is_prerequisite_concurrent_separate,
            deviant: UndergraduateCourseDeviantFlags {
                empty_crosslist: found.flags.deviant.empty_crosslist,
                unknown_requirement: read.flags.deviant.unknown_requirement,
            },
        },
        ..found
    }
}

/// `found` with the flag set that tells of a cross-list without a course.
pub open spec fn with_empty_crosslist(found: ExtraView) -> ExtraView {
    ExtraView {
        flags: UndergraduateCourseFlags {
            deviant: UndergraduateCourseDeviantFlags {
                empty_crosslist: true,
                ..found.flags.deviant
            },
            ..found.flags
        },
        ..found
    }
}

/// What is known of the extra details after one more entry. An entry with a
/// label in bold, or one that announces requirements, is handed to the
/// classifier: its trees, and the flags that tell of them, take the place
/// of those of an earlier such entry. A noisy entry is passed over. An
/// entry that announces a cross-list gives the cross-list, or sets the flag
/// where no course is found in it; no later entry takes that flag back. Any
/// other entry names an attribute, and fails where the table has none of
/// that name.
pub open spec fn detail_step(found: ExtraView, detail: DetailView, own: CourseKey) -> Result<
    ExtraView,
    BulletinError,
> {
    let text = trim_all_spec(detail.text);
    if detail.has_label {
        Ok(with_requirements(found, detail, own))
    } else if noisy_extra_detail(text) {
        Ok(found)
    } else if is_crosslist_label(text) {
        let courses = crosslist_courses(crosslist_candidates(text, detail.fragments));
        if courses.len() == 0 {
            Ok(with_empty_crosslist(found))
        } else {
            Ok(ExtraView { crosslist: Some(courses), ..found })
        }
    } else if is_requirement_label(text) {
        Ok(with_requirements(found, detail, own))
    } else {
        match attribute_place(fixed_attribute(text), 22) {
            Some(i) => Ok(ExtraView { attributes: found.attributes.update(i, true), ..found }),
            None => Err(BulletinError::UnknownTaxonomyValue),
        }
    }
}

/// What the extra details `details` of the course `own` say, or the failure
/// of the first entry that names an unknown attribute.
pub open spec fn extra_details_spec(details: Seq<DetailView>, own: CourseKey) -> Result<
    ExtraView,
    BulletinError,
>
    decreases details.len(),
{
    if details.len() == 0 {
        Ok(extra_start())
    } else {
        match extra_details_spec(details.drop_last(), own) {
            Ok(found) => detail_step(found, details.last(), own),
            Err(e) => Err(e),
        }
    }
}

/// Once an entry has failed, more entries change nothing.
pub proof fn lemma_extra_failure_stays(details: Seq<DetailView>, i: int, own: CourseKey)
    requires
        0 <= i <= details.len(),
        extra_details_spec(details.subrange(0, i), own) is Err,
    ensures
        extra_details_spec(details, own) == extra_details_spec(details.subrange(0, i), own),
    decreases details.len() - i,
{
    if i == details.len() {
        assert(details.subrange(0, i) =~= details);
    } else {
        assert(details.subrange(0, i + 1).drop_last() =~= details.subrange(0, i));
        lemma_extra_failure_stays(details, i + 1, own);
    }
}

/// No entry takes back the flag of a cross-list without a course.
pub proof fn lemma_empty_crosslist_kept(found: ExtraView, detail: DetailView, own: CourseKey)
    requires
        found.flags.deviant.empty_crosslist,
        detail_step(found, detail, own) is Ok,
    ensures
        detail_step(found, detail, own)->Ok_0.flags.deviant.empty_crosslist,
{
}

/// Where a cross-list without a course was announced among the entries of
/// a course, the flag is set at the end, whatever entries follow and
/// wherever the announcement stands among them.
pub proof fn lemma_empty_crosslist_stays(
    details: Seq<DetailView>,
    more: Seq<DetailView>,
    own: CourseKey,
)
    requires
        extra_details_spec(details, own) is Ok,
        extra_details_spec(details, own)->Ok_0.flags.deviant.empty_crosslist,
        extra_details_spec(details + more, own) is Ok,
    ensures
        extra_details_spec(details + more, own)->Ok_0.flags.deviant.empty_crosslist,
    decreases more.len(),
{
    if more.len() == 0 {
        assert(details + more =~= details);
    } else {
        assert((details + more).drop_last() =~= details + more.drop_last());
        lemma_empty_crosslist_stays(details, more.drop_last(), own);
        lemma_empty_crosslist_kept(
            extra_details_spec(details + more.drop_last(), own)->Ok_0,
            more.last(),
            own,
        );
    }
}

impl ScrapeUndergraduateCourses {
    /// The fragments of the requirement text of an entry: the text of each
    /// of its parts, in order.
    pub fn create_text_chunks(element: &ExtraDetail) -> (r: Vec<&str>)
        ensures
            chunk_views(r@) == element@.fragments,
    {
        let mut r: Vec<&str> = Vec::new();
        let mut i: usize = 0;
        while i < element.fragments.len()
            invariant
                i <= element.fragments.len(),
                r@.len() == i,
                forall|k: int| 0 <= k < i ==> (#[trigger] r@[k])@ == element.fragments@[k]@,
            decreases element.fragments.len() - i,
        {
            r.push(element.fragments[i].as_str());
            i += 1;
        }
        assert(chunk_views(r@) =~= element@.fragments);
        r
    }

    /// The courses of a cross-list, looked for among `candidates`.
    pub fn read_crosslist(candidates: &Vec<Vec<char>>) -> (r: Vec<CourseIdentifier>)
        ensures
            course_keys(r@) == crosslist_courses(piece_views(candidates@)),
    {
        let ghost views = piece_views(candidates@);
        let mut r: Vec<CourseIdentifier> = Vec::new();
        let mut i: usize = 0;
        assert(views.subrange(0, 0) =~= Seq::<Seq<char>>::empty());
        assert(course_keys(r@) =~= Seq::<CourseKey>::empty());
        while i < candidates.len()
            invariant
                i <= candidates.len(),
                views == piece_views(candidates@),
                course_keys(r@) == crosslist_courses(views.subrange(0, i as int)),
            decreases candidates.len() - i,
        {
            let ghost before = course_keys(r@);
            assert(views.subrange(0, i + 1).drop_last() =~= views.subrange(0, i as int));
            assert(views.subrange(0, i + 1).last() == candidates@[i as int]@);
            let text = trim_all_chars(&to_upper(&candidates[i]));
            match CourseIdentifier::from_chars(&text) {
                Ok(course) => {
                    let ghost key = course@;
                    r.push(course);
                    assert(course_keys(r@) =~= before.push(key));
                },
                Err(_) => {},
            }
            i += 1;
        }
        assert(views.subrange(0, candidates.len() as int) =~= views);
        r
    }

    /// What the extra details of the course `identifier` say: its
    /// attributes, its cross-list, its requirement trees and its flags. The
    /// trees are those of the last entry that states requirements. The flag
    /// of a cross-list without a course is set by the entry that announces
    /// it, and stays. Fails exactly where an entry names an attribute that
    /// the table does not hold.
    pub fn parse_extra_details(details: &Vec<ExtraDetail>, identifier: &CourseIdentifier) -> (r:
        Result<CourseExtraDetails, BulletinError>)
        ensures
            match extra_details_spec(detail_views(details@), identifier@) {
                Ok(found) => r is Ok && r->Ok_0@ == found,
                Err(e) => r is Err && r->Err_0 == e,
            },
    {
        let ghost views = detail_views(details@);
        let mut found = CourseExtraDetails {
            attribute_list: AttributeList::new(),
            crosslist: None,
            requirements: UndergraduateCourseRequirements {
                prerequisites: None,
                concurrent: None,
                corequisites: None,
                recommended: None,
            },
            flags: UndergraduateCourseFlags {
                is_prerequisite_concurrent_separate: false,
                deviant: UndergraduateCourseDeviantFlags {
                    empty_crosslist: false,
                    unknown_requirement: false,
                },
            },
        };
        let mut i: usize = 0;
        assert(views.subrange(0, 0) =~= Seq::<DetailView>::empty());
        while i < details.len()
            invariant
                i <= details.len(),
                views == detail_views(details@),
                extra_details_spec(views.subrange(0, i as int), identifier@) == Ok::<
                    ExtraView,
                    BulletinError,
                >(found@),
            decreases details.len() - i,
        {
            let detail = &details[i];
            proof {
                assert(views.subrange(0, i + 1).drop_last() =~= views.subrange(0, i as int));
                assert(views.subrange(0, i + 1).last() == detail@);
            }
            let text = trim_all_chars(&to_chars(detail.text.as_str()));
            let label = from_chars(&text);
            if detail.has_label {
                let read = Self::create_requirement_trees(
                    Self::create_text_chunks(detail),
                    identifier,
                );
                found.requirements = read.requirements;
                found.flags.is_prerequisite_concurrent_separate =
                    read.flags.is_prerequisite_concurrent_separate;
                found.flags.deviant.unknown_requirement = read.flags.deviant.unknown_requirement;
            } else if Self::is_noisy_extra_detail(label.as_str()) {
            } else if starts_with(&text, &to_chars("Cross-listed with:")) || chars_are(
                &text,
                "Cross-Listed",
            ) {
                let candidates = if detail.fragments.len() > 1 {
                    let mut parts: Vec<Vec<char>> = Vec::new();
                    let mut k: usize = 0;
                    while k < detail.fragments.len()
                        invariant
                            k <= detail.fragments.len(),
                            parts@.len() == k,
                            forall|j: int|
                                0 <= j < k ==> (#[trigger] parts@[j])@ == detail.fragments@[j]@,
                        decreases detail.fragments.len() - k,
                    {
                        parts.push(to_chars(detail.fragments[k].as_str()));
                        k += 1;
                    }
                    assert(piece_views(parts@) =~= detail@.fragments);
                    parts
                } else {
                    let none: Vec<char> = Vec::new();
                    assert(none@ =~= Seq::<char>::empty());
                    proof {
                        reveal_strlit(",");
                    }
                    split_chars(
                        &trim_chars(&replace_chars(&text, &to_chars("Cross-listed with:"), &none)),
                        &to_chars(","),
                    )
                };
                let courses = Self::read_crosslist(&candidates);
                if courses.len() == 0 {
                    found.flags.deviant.empty_crosslist = true;
                } else {
                    found.crosslist = Some(courses);
                }
            } else if chars_are(&text, "Prerequisite") || chars_are(&text, "Prerequisites")
                || chars_are(&text, "Enforced Prerequisite at Enrollment") || chars_are(
                &text,
                "Enforced Corequisite at Enrollment",
            ) || chars_are(&text, "Recommended Preparation") {
                let read = Self::create_requirement_trees(
                    Self::create_text_chunks(detail),
                    identifier,
                );
                found.requirements = read.requirements;
                found.flags.is_prerequisite_concurrent_separate =
                    read.flags.is_prerequisite_concurrent_separate;
                found.flags.deviant.unknown_requirement = read.flags.deviant.unknown_requirement;
            } else {
                let attribute = Self::fix_attribute_typos(label.as_str());
                match found.attribute_list.add(attribute) {
                    Ok(()) => {},
                    Err(e) => {
                        proof {
                            lemma_extra_failure_stays(views, i + 1, identifier@);
                        }
                        return Err(e);
                    },
                }
            }
            i += 1;
        }
        assert(views.subrange(0, details.len() as int) =~= views);
        Ok(found)
    }
}

} // verus!
