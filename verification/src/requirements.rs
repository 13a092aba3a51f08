//! The requirement classifier: a scan of normalized catalog text that tells
//! the four requirement categories apart, finds the course identifiers and
//! the logic between them, and builds one tree for each category.

use vstd::prelude::*;
use crate::exclusion::{lemma_own_course_excluded, requirements_avoid};
use crate::identifier::{CourseIdentifier, CourseKey, parse_identifier};
use crate::text::{
    append_chars, chars_are, contains, has_infix, normalize_chars, normalize_spec, slice_of,
    to_chars, trim_all_chars, trim_all_spec,
};
use crate::tree::{parse_tree, ArenaNode, CourseRequirementTree};

verus! {

/// The category that a stretch of requirement text belongs to.
#[derive(Debug, Clone, Copy, PartialEq, Eq, Structural)]
pub enum CourseRequirementMode {
    Prerequisite,
    Concurrent,
    Corequisite,
    Recommended,
}

/// The requirement trees of a course, one for each category that the
/// catalog states.
pub struct UndergraduateCourseRequirements {
    pub prerequisites: Option<CourseRequirementTree>,
    pub concurrent: Option<CourseRequirementTree>,
    pub corequisites: Option<CourseRequirementTree>,
    pub recommended: Option<CourseRequirementTree>,
}

/// Marks of catalog text that could not be read in full.
#[derive(Debug, Clone, Copy, PartialEq, Eq, Structural)]
pub struct UndergraduateCourseDeviantFlags {
    /// A cross-list was announced and no course was found in it.
    pub empty_crosslist: bool,
    /// Requirement text was left over that is neither a course nor a known
    /// word.
    pub unknown_requirement: bool,
}

/// Marks on a course.
#[derive(Debug, Clone, Copy, PartialEq, Eq, Structural)]
pub struct UndergraduateCourseFlags {
    /// The concurrent requirements are an alternative to the prerequisites,
    /// not an addition to them.
    pub is_prerequisite_concurrent_separate: bool,
    pub deviant: UndergraduateCourseDeviantFlags,
}

/// What the classifier found in the requirement text of a course.
pub struct CourseRequirementTreeDetails {
    pub requirements: UndergraduateCourseRequirements,
    pub flags: UndergraduateCourseFlags,
}

/// The arena of an optional tree.
pub open spec fn arena_of(tree: Option<CourseRequirementTree>) -> Option<Seq<ArenaNode>> {
    match tree {
        Some(t) => Some(t.arena()),
        None => None,
    }
}

/// The four trees of a course, as arenas.
pub struct RequirementsView {
    pub prerequisites: Option<Seq<ArenaNode>>,
    pub concurrent: Option<Seq<ArenaNode>>,
    pub corequisites: Option<Seq<ArenaNode>>,
    pub recommended: Option<Seq<ArenaNode>>,
}

impl View for UndergraduateCourseRequirements {
    type V = RequirementsView;

    open spec fn view(&self) -> RequirementsView {
        RequirementsView {
            prerequisites: arena_of(self.prerequisites),
            concurrent: arena_of(self.concurrent),
            corequisites: arena_of(self.corequisites),
            recommended: arena_of(self.recommended),
        }
    }
}

impl RequirementsView {
    /// The tree of the category `mode`.
    pub open spec fn slot(self, mode: CourseRequirementMode) -> Option<Seq<ArenaNode>> {
        match mode {
            CourseRequirementMode::Prerequisite => self.prerequisites,
            CourseRequirementMode::Concurrent => self.concurrent,
            CourseRequirementMode::Corequisite => self.corequisites,
            CourseRequirementMode::Recommended => self.recommended,
        }
    }

    /// These trees with `tree` as the tree of the category `mode`.
    pub open spec fn with_slot(
        self,
        mode: CourseRequirementMode,
        tree: Option<Seq<ArenaNode>>,
    ) -> RequirementsView {
        match mode {
            CourseRequirementMode::Prerequisite => RequirementsView { prerequisites: tree, ..self },
            CourseRequirementMode::Concurrent => RequirementsView { concurrent: tree, ..self },
            CourseRequirementMode::Corequisite => RequirementsView { corequisites: tree, ..self },
            CourseRequirementMode::Recommended => RequirementsView { recommended: tree, ..self },
        }
    }
}

/// What the classifier found, as mathematical values.
pub struct DetailsView {
    pub requirements: RequirementsView,
    pub flags: UndergraduateCourseFlags,
}

impl View for CourseRequirementTreeDetails {
    type V = DetailsView;

    open spec fn view(&self) -> DetailsView {
        DetailsView { requirements: self.requirements@, flags: self.flags }
    }
}

/// Where the classifier stands: the open category, the bracketed text
/// gathered for it, the trees set so far, and the flags.
pub struct ClassifierState {
    pub mode: Option<CourseRequirementMode>,
    pub text: Seq<char>,
    pub requirements: RequirementsView,
    pub flags: UndergraduateCourseFlags,
}

/// The classifier before the first fragment.
pub open spec fn classifier_start() -> ClassifierState {
    ClassifierState {
        mode: None,
        text: Seq::empty(),
        requirements: RequirementsView {
            prerequisites: None,
            concurrent: None,
            corequisites: None,
            recommended: None,
        },
        flags: UndergraduateCourseFlags {
            is_prerequisite_concurrent_separate: false,
            deviant: UndergraduateCourseDeviantFlags {
                empty_crosslist: false,
                unknown_requirement: false,
            },
        },
    }
}

/// Whether `c` is one of the two logic characters of the bracketed text.
pub open spec fn is_logic(c: char) -> bool {
    c == '&' || c == '|'
}

/// `s` without the logic characters at its start.
pub open spec fn strip_leading_logic(s: Seq<char>) -> Seq<char>
    decreases s.len(),
{
    if s.len() > 0 && is_logic(s[0]) {
        strip_leading_logic(s.drop_first())
    } else {
        s
    }
}

/// `s` without the logic characters at its end.
pub open spec fn strip_trailing_logic(s: Seq<char>) -> Seq<char>
    decreases s.len(),
{
    if s.len() > 0 && is_logic(s.last()) {
        strip_trailing_logic(s.drop_last())
    } else {
        s
    }
}

/// `s` without the logic characters that dangle at its start and at its
/// end.
pub open spec fn strip_logic(s: Seq<char>) -> Seq<char> {
    strip_trailing_logic(strip_leading_logic(s))
}

/// The tree that the gathered text gives: none where the text is refused.
pub open spec fn tree_of_text(text: Seq<char>) -> Option<Seq<ArenaNode>> {
    match parse_tree(strip_logic(text)) {
        Ok(a) => Some(a),
        Err(_) => None,
    }
}

/// The classifier after a flush that opens the category `next`. Text that
/// was gathered for a category becomes that category's tree, unless the
/// category has a tree already; then the text is dropped either way.
pub open spec fn flush_spec(
    st: ClassifierState,
    next: Option<CourseRequirementMode>,
) -> ClassifierState {
    let requirements = match st.mode {
        Some(mode) => if st.text.len() > 0 && st.requirements.slot(mode) is None {
            st.requirements.with_slot(mode, tree_of_text(st.text))
        } else {
            st.requirements
        },
        None => st.requirements,
    };
    ClassifierState { mode: next, text: Seq::empty(), requirements, flags: st.flags }
}

/// Whether `w` is one of the phrases that the classifier passes over.
pub open spec fn is_noise(w: Seq<char>) -> bool {
    w == "C OR BETTER IN"@ || w == "PRIOR TO"@ || w == "ENFORCED"@ || w == "AT ENROLLMENT"@ || w
        == "PREPARATION"@ || w == "PRIOR EXPOSURE TO R PROGRAMMING LANGUAGE"@
}

/// The category that the keyword `w` opens.
pub open spec fn mode_keyword(w: Seq<char>) -> Option<CourseRequirementMode> {
    if w == "PREREQUISITE"@ {
        Some(CourseRequirementMode::Prerequisite)
    } else if w == "CONCURRENT"@ {
        Some(CourseRequirementMode::Concurrent)
    } else if w == "COREQUISITE"@ {
        Some(CourseRequirementMode::Corequisite)
    } else if w == "RECOMMENDED"@ {
        Some(CourseRequirementMode::Recommended)
    } else {
        None
    }
}

/// Whether `c` opens or closes a group.
pub open spec fn is_bracket(c: char) -> bool {
    c == '(' || c == ')' || c == '[' || c == ']'
}

/// `w` between braces, as a course stands in the bracketed text.
pub open spec fn braced(w: Seq<char>) -> Seq<char> {
    seq!['{'] + w + seq!['}']
}

/// Whether the word `w`, read up to position `i` of `fragment`, is a whole
/// course identifier: it is one, and either the fragment ends here or the
/// word with the next character is none.
pub open spec fn accepts_course(w: Seq<char>, fragment: Seq<char>, i: int) -> bool {
    parse_identifier(w) is Some && (i == fragment.len() - 1 || parse_identifier(
        w.push(fragment[i + 1]),
    ) is None)
}

/// Whether the course that `w` writes goes into `text`: it is not the course
/// `own` itself, it does not stand in `text` already, and it does not hold
/// the word `ANY`.
pub open spec fn emits_course(w: Seq<char>, text: Seq<char>, own: CourseKey) -> bool {
    parse_identifier(w) != Some(own) && !has_infix(text, braced(w)) && !has_infix(w, "ANY"@)
}

/// The classifier inside a fragment: its state, and the word that is being
/// read.
pub struct ScanView {
    pub st: ClassifierState,
    pub word: Seq<char>,
}

/// `st` with the text `text`.
pub open spec fn with_text(st: ClassifierState, text: Seq<char>) -> ClassifierState {
    ClassifierState { text, ..st }
}

/// `st` with the flag set that tells that prerequisites and concurrent
/// courses are alternatives.
pub open spec fn with_separate(st: ClassifierState) -> ClassifierState {
    ClassifierState {
        flags: UndergraduateCourseFlags { is_prerequisite_concurrent_separate: true, ..st.flags },
        ..st
    }
}

/// `st` with the flag set that tells of text that was not understood.
pub open spec fn with_unknown(st: ClassifierState) -> ClassifierState {
    ClassifierState {
        flags: UndergraduateCourseFlags {
            deviant: UndergraduateCourseDeviantFlags {
                unknown_requirement: true,
                ..st.flags.deviant
            },
            ..st.flags
        },
        ..st
    }
}

/// The classifier after the character at position `i` of `fragment`.
///
/// A bracket goes into the text at once; a full stop or a colon is dropped;
/// any other character goes into the word. Then the word is looked at,
/// trimmed and with its spaces collapsed. `AND` and `OR` put their logic
/// character into the text. A noise phrase is dropped. A category keyword
/// flushes the text and opens its category; `CONCURRENT` right behind an OR
/// also sets the flag that tells the two categories are alternatives. A
/// whole course identifier goes into the text in braces, unless it is
/// passed over, in which case the word stays. After each of the others the
/// word is empty again.
pub open spec fn char_step(sc: ScanView, fragment: Seq<char>, i: int, own: CourseKey) -> ScanView {
    let c = fragment[i];
    let text = if is_bracket(c) {
        sc.st.text.push(c)
    } else {
        sc.st.text
    };
    let word = if is_bracket(c) || c == '.' || c == ':' {
        sc.word
    } else {
        sc.word.push(c)
    };
    let st = with_text(sc.st, text);
    let w = trim_all_spec(word);
    if w == "AND"@ {
        ScanView { st: with_text(st, text.push('&')), word: Seq::empty() }
    } else if w == "OR"@ {
        ScanView { st: with_text(st, text.push('|')), word: Seq::empty() }
    } else if is_noise(w) {
        ScanView { st, word: Seq::empty() }
    } else {
        match mode_keyword(w) {
            Some(mode) => {
                let marked = if mode == CourseRequirementMode::Concurrent && text.len() > 0
                    && text.last() == '|' {
                    with_separate(st)
                } else {
                    st
                };
                ScanView { st: flush_spec(marked, Some(mode)), word: Seq::empty() }
            },
            None => if accepts_course(w, fragment, i) && emits_course(w, text, own) {
                ScanView { st: with_text(st, text + braced(w)), word: Seq::empty() }
            } else {
                ScanView { st, word }
            },
        }
    }
}

/// The classifier after the first `n` characters of `fragment`, begun with
/// an empty word.
pub open spec fn scan_chars(
    st: ClassifierState,
    fragment: Seq<char>,
    n: nat,
    own: CourseKey,
) -> ScanView
    decreases n,
{
    if n == 0 {
        ScanView { st, word: Seq::empty() }
    } else {
        char_step(scan_chars(st, fragment, (n - 1) as nat, own), fragment, n - 1, own)
    }
}

/// The classifier after the raw fragment `raw`: the fragment is normalized
/// and scanned; a word that is left over at its end, other than a lone `S`,
/// sets the flag that tells of text that was not understood.
pub open spec fn fragment_step(
    st: ClassifierState,
    raw: Seq<char>,
    own: CourseKey,
) -> ClassifierState {
    let fragment = normalize_spec(raw);
    let sc = scan_chars(st, fragment, fragment.len(), own);
    let residue = trim_all_spec(sc.word);
    if residue.len() > 0 && residue != "S"@ {
        with_unknown(sc.st)
    } else {
        sc.st
    }
}

/// The classifier after the fragments of `fragments`.
pub open spec fn classify_fragments(fragments: Seq<Seq<char>>, own: CourseKey) -> ClassifierState
    decreases fragments.len(),
{
    if fragments.len() == 0 {
        classifier_start()
    } else {
        fragment_step(classify_fragments(fragments.drop_last(), own), fragments.last(), own)
    }
}

/// What the classifier finds in the fragments of the course `own`: the
/// state after the last fragment, flushed.
pub open spec fn classify_spec(fragments: Seq<Seq<char>>, own: CourseKey) -> DetailsView {
    let st = flush_spec(classify_fragments(fragments, own), None);
    DetailsView { requirements: st.requirements, flags: st.flags }
}

/// The characters of each of `chunks`.
pub open spec fn chunk_views(chunks: Seq<&str>) -> Seq<Seq<char>> {
    Seq::new(chunks.len(), |i: int| chunks[i]@)
}

/// `s` without the logic characters that dangle at its start and at its
/// end.
pub fn strip_logic_chars(s: &Vec<char>) -> (r: Vec<char>)
    ensures
        r@ == strip_logic(s@),
{
    let n: usize = s.len();
    let mut start: usize = 0;
    assert(s@.subrange(0, n as int) =~= s@);
    while start < n && (s[start] == '&' || s[start] == '|')
        invariant
            n == s.len(),
            start <= n,
            strip_leading_logic(s@) == strip_leading_logic(s@.subrange(start as int, n as int)),
        decreases n - start,
    {
        assert(s@.subrange(start as int, n as int).drop_first() =~= s@.subrange(
            start + 1,
            n as int,
        ));
        start += 1;
    }
    assert(strip_leading_logic(s@) == s@.subrange(start as int, n as int));
    let mut end: usize = n;
    while end > start && (s[end - 1] == '&' || s[end - 1] == '|')
        invariant
            n == s.len(),
            start <= end <= n,
            strip_logic(s@) == strip_trailing_logic(s@.subrange(start as int, end as int)),
        decreases end,
    {
        assert(s@.subrange(start as int, end as int).drop_last() =~= s@.subrange(
            start as int,
            end - 1,
        ));
        end -= 1;
    }
    slice_of(s, start, end)
}

/// The classifier: the trees set so far, the flags, the open category and
/// the bracketed text gathered for it.
pub struct RequirementClassifier {
    requirements: UndergraduateCourseRequirements,
    flags: UndergraduateCourseFlags,
    current_mode: Option<CourseRequirementMode>,
    requirement_text: Vec<char>,
}

impl View for RequirementClassifier {
    type V = ClassifierState;

    closed spec fn view(&self) -> ClassifierState {
        ClassifierState {
            mode: self.current_mode,
            text: self.requirement_text@,
            requirements: self.requirements@,
            flags: self.flags,
        }
    }
}

impl RequirementClassifier {
    /// The classifier before the first fragment.
    pub fn new() -> (r: RequirementClassifier)
        ensures
            r@ == classifier_start(),
    {
        RequirementClassifier {
            requirements: UndergraduateCourseRequirements {
                prerequisites: None,
                concurrent: None,
                corequisites: None,
                recommended: None,
            },
            flags: UndergraduateCourseFlags {
                is_prerequisite_concurrent_separate: false,
                deviant: UndergraduateCourseDeviantFlags {
                    empty_crosslist: false,
                    unknown_requirement: false,
                },
            },
            current_mode: None,
            requirement_text: Vec::new(),
        }
    }

    /// Turns the gathered text into the tree of the open category, where
    /// that category has none yet, and opens the category `next`.
    pub fn flush(&mut self, next: Option<CourseRequirementMode>)
        ensures
            final(self)@ == flush_spec(old(self)@, next),
    {
        if self.requirement_text.len() > 0 {
            match self.current_mode {
                Some(mode) => {
                    let stripped = strip_logic_chars(&self.requirement_text);
                    let tree = match CourseRequirementTree::from_chars(&stripped) {
                        Ok(t) => Some(t),
                        Err(_) => None,
                    };
                    assert(arena_of(tree) == tree_of_text(self.requirement_text@));
                    match mode {
                        CourseRequirementMode::Prerequisite => {
                            if self.requirements.prerequisites.is_none() {
                                self.requirements.prerequisites = tree;
                            }
                        },
                        CourseRequirementMode::Concurrent => {
                            if self.requirements.concurrent.is_none() {
                                self.requirements.concurrent = tree;
                            }
                        },
                        CourseRequirementMode::Corequisite => {
                            if self.requirements.corequisites.is_none() {
                                self.requirements.corequisites = tree;
                            }
                        },
                        CourseRequirementMode::Recommended => {
                            if self.requirements.recommended.is_none() {
                                self.requirements.recommended = tree;
                            }
                        },
                    }
                },
                None => {},
            }
        }
        self.current_mode = next;
        self.requirement_text = Vec::new();
    }
}

impl RequirementClassifier {
    /// Takes in the character at position `i` of the normalized fragment.
    fn step(&mut self, word: &mut Vec<char>, fragment: &Vec<char>, i: usize, own: &CourseIdentifier)
        requires
            i < fragment.len(),
        ensures
            (ScanView { st: final(self)@, word: final(word)@ }) == char_step(
                ScanView { st: old(self)@, word: old(word)@ },
                fragment@,
                i as int,
                own@,
            ),
    {
        let c = fragment[i];
        if c == '(' || c == ')' || c == '[' || c == ']' {
            self.requirement_text.push(c);
        } else if c == '.' || c == ':' {
        } else {
            word.push(c);
        }
        let w = trim_all_chars(word);
        if chars_are(&w, "AND") {
            self.requirement_text.push('&');
            word.clear();
        } else if chars_are(&w, "OR") {
            self.requirement_text.push('|');
            word.clear();
        } else if chars_are(&w, "C OR BETTER IN") || chars_are(&w, "PRIOR TO") || chars_are(
            &w,
            "ENFORCED",
        ) || chars_are(&w, "AT ENROLLMENT") || chars_are(&w, "PREPARATION") || chars_are(
            &w,
            "PRIOR EXPOSURE TO R PROGRAMMING LANGUAGE",
        ) {
            word.clear();
        } else if chars_are(&w, "PREREQUISITE") {
            self.flush(Some(CourseRequirementMode::Prerequisite));
            word.clear();
        } else if chars_are(&w, "CONCURRENT") {
            let n: usize = self.requirement_text.len();
            if n > 0 && self.requirement_text[n - 1] == '|' {
                self.flags.is_prerequisite_concurrent_separate = true;
            }
            self.flush(Some(CourseRequirementMode::Concurrent));
            word.clear();
        } else if chars_are(&w, "COREQUISITE") {
            self.flush(Some(CourseRequirementMode::Corequisite));
            word.clear();
        } else if chars_are(&w, "RECOMMENDED") {
            self.flush(Some(CourseRequirementMode::Recommended));
            word.clear();
        } else {
            match CourseIdentifier::from_chars(&w) {
                Ok(course) => {
                    let whole = if i == fragment.len() - 1 {
                        true
                    } else {
                        let mut longer = slice_of(&w, 0, w.len());
                        longer.push(fragment[i + 1]);
                        assert(longer@ =~= w@.push(fragment@[i + 1]));
                        CourseIdentifier::from_chars(&longer).is_err()
                    };
                    if whole {
                        let mut token: Vec<char> = Vec::new();
                        token.push('{');
                        append_chars(&mut token, &w);
                        token.push('}');
                        assert(token@ =~= braced(w@));
                        let any = to_chars("ANY");
                        if !course.same_as(own) && !contains(&self.requirement_text, &token)
                            && !contains(&w, &any) {
                            append_chars(&mut self.requirement_text, &token);
                            word.clear();
                        }
                    }
                },
                Err(_) => {},
            }
        }
    }

    /// Takes in one raw fragment of the requirement text of the course
    /// `own`.
    pub fn scan_fragment(&mut self, raw: &str, own: &CourseIdentifier)
        ensures
            final(self)@ == fragment_step(old(self)@, raw@, own@),
    {
        let raw_chars = to_chars(raw);
        let fragment = normalize_chars(&raw_chars);
        let mut word: Vec<char> = Vec::new();
        let mut i: usize = 0;
        while i < fragment.len()
            invariant
                i <= fragment.len(),
                (ScanView { st: self@, word: word@ }) == scan_chars(
                    old(self)@,
                    fragment@,
                    i as nat,
                    own@,
                ),
            decreases fragment.len() - i,
        {
            self.step(&mut word, &fragment, i, own);
            i += 1;
        }
        let residue = trim_all_chars(&word);
        if residue.len() > 0 && !chars_are(&residue, "S") {
            self.flags.deviant.unknown_requirement = true;
        }
    }

    /// Flushes the last open category and hands out what was found.
    pub fn finish(self) -> (r: CourseRequirementTreeDetails)
        ensures
            r@.requirements == flush_spec(self@, None).requirements,
            r@.flags == flush_spec(self@, None).flags,
    {
        let mut done = self;
        done.flush(None);
        CourseRequirementTreeDetails { requirements: done.requirements, flags: done.flags }
    }
}

/// Reads the requirement text of the course `identifier`, given as the
/// fragments of its block in order, into one tree for each category and the
/// flags.
pub fn classify(text_chunks: &Vec<&str>, identifier: &CourseIdentifier) -> (r:
    CourseRequirementTreeDetails)
    ensures
        r@ == classify_spec(chunk_views(text_chunks@), identifier@),
        requirements_avoid(r@.requirements, identifier@),
{
    let ghost fragments = chunk_views(text_chunks@);
    proof {
        lemma_own_course_excluded(fragments, identifier@);
    }
    let mut classifier = RequirementClassifier::new();
    let mut i: usize = 0;
    assert(fragments.subrange(0, 0) =~= Seq::<Seq<char>>::empty());
    while i < text_chunks.len()
        invariant
            i <= text_chunks.len(),
            fragments == chunk_views(text_chunks@),
            classifier@ == classify_fragments(fragments.subrange(0, i as int), identifier@),
        decreases text_chunks.len() - i,
    {
        assert(fragments.subrange(0, i + 1).drop_last() =~= fragments.subrange(0, i as int));
        classifier.scan_fragment(text_chunks[i], identifier);
        i += 1;
    }
    assert(fragments.subrange(0, text_chunks.len() as int) =~= fragments);
    classifier.finish()
}

/// Text without its dangling logic characters neither begins nor ends with
/// a logic character.
pub proof fn lemma_strip_logic_ends(s: Seq<char>)
    ensures
        strip_logic(s).len() > 0 ==> !is_logic(strip_logic(s)[0]) && !is_logic(
            strip_logic(s).last(),
        ),
{
    lemma_strip_leading_head(s);
    lemma_strip_trailing_tail(strip_leading_logic(s));
}

/// What is left without the leading logic characters does not begin with
/// one.
pub proof fn lemma_strip_leading_head(s: Seq<char>)
    ensures
        strip_leading_logic(s).len() > 0 ==> !is_logic(strip_leading_logic(s)[0]),
    decreases s.len(),
{
    if s.len() > 0 && is_logic(s[0]) {
        lemma_strip_leading_head(s.drop_first());
    }
}

/// What is left without the trailing logic characters is a prefix that does
/// not end with one.
pub proof fn lemma_strip_trailing_tail(s: Seq<char>)
    ensures
        strip_trailing_logic(s).len() <= s.len(),
        strip_trailing_logic(s) == s.subrange(0, strip_trailing_logic(s).len() as int),
        strip_trailing_logic(s).len() > 0 ==> !is_logic(strip_trailing_logic(s).last()),
    decreases s.len(),
{
    if s.len() > 0 && is_logic(s.last()) {
        lemma_strip_trailing_tail(s.drop_last());
        assert(s.drop_last().subrange(0, strip_trailing_logic(s).len() as int) =~= s.subrange(
            0,
            strip_trailing_logic(s).len() as int,
        ));
    } else {
        assert(s.subrange(0, s.len() as int) =~= s);
    }
}

/// A flush leaves a tree that is set as it is.
pub proof fn lemma_flush_keeps_tree(
    st: ClassifierState,
    next: Option<CourseRequirementMode>,
    mode: CourseRequirementMode,
)
    requires
        st.requirements.slot(mode) is Some,
    ensures
        flush_spec(st, next).requirements.slot(mode) == st.requirements.slot(mode),
{
}

/// The characters of a fragment leave a tree that is set as it is.
pub proof fn lemma_scan_keeps_tree(
    st: ClassifierState,
    fragment: Seq<char>,
    n: nat,
    own: CourseKey,
    mode: CourseRequirementMode,
)
    requires
        st.requirements.slot(mode) is Some,
    ensures
        scan_chars(st, fragment, n, own).st.requirements.slot(mode) == st.requirements.slot(mode),
    decreases n,
{
    if n > 0 {
        lemma_scan_keeps_tree(st, fragment, (n - 1) as nat, own, mode);
        let sc = scan_chars(st, fragment, (n - 1) as nat, own);
        let c = fragment[n - 1];
        let text = if is_bracket(c) {
            sc.st.text.push(c)
        } else {
            sc.st.text
        };
        let base = with_text(sc.st, text);
        let word = if is_bracket(c) || c == '.' || c == ':' {
            sc.word
        } else {
            sc.word.push(c)
        };
        let w = trim_all_spec(word);
        lemma_flush_keeps_tree(base, mode_keyword(w), mode);
        lemma_flush_keeps_tree(with_separate(base), mode_keyword(w), mode);
    }
}

/// Once a category has its tree, no later fragment changes it: whatever
/// follows, a second clause of the same category or words that are not
/// understood, the tree stays.
pub proof fn lemma_write_once(
    st: ClassifierState,
    raw: Seq<char>,
    own: CourseKey,
    mode: CourseRequirementMode,
)
    requires
        st.requirements.slot(mode) is Some,
    ensures
        fragment_step(st, raw, own).requirements.slot(mode) == st.requirements.slot(mode),
{
    let fragment = normalize_spec(raw);
    lemma_scan_keeps_tree(st, fragment, fragment.len(), own, mode);
}

/// More fragments leave a tree that is set as it is.
pub proof fn lemma_fragments_keep_tree(
    fragments: Seq<Seq<char>>,
    more: Seq<Seq<char>>,
    own: CourseKey,
    mode: CourseRequirementMode,
)
    requires
        classify_fragments(fragments, own).requirements.slot(mode) is Some,
    ensures
        classify_fragments(fragments + more, own).requirements.slot(mode) == classify_fragments(
            fragments,
            own,
        ).requirements.slot(mode),
    decreases more.len(),
{
    if more.len() == 0 {
        assert(fragments + more =~= fragments);
    } else {
        assert((fragments + more).drop_last() =~= fragments + more.drop_last());
        lemma_fragments_keep_tree(fragments, more.drop_last(), own, mode);
        lemma_write_once(
            classify_fragments(fragments + more.drop_last(), own),
            more.last(),
            own,
            mode,
        );
    }
}

/// The first tree of a category is its tree for good: where the classifier
/// has set the tree of a category after some fragments, that tree is what it
/// finds for the category, whatever fragments follow.
pub proof fn lemma_first_tree_stays(
    fragments: Seq<Seq<char>>,
    more: Seq<Seq<char>>,
    own: CourseKey,
    mode: CourseRequirementMode,
)
    requires
        classify_fragments(fragments, own).requirements.slot(mode) is Some,
    ensures
        classify_spec(fragments + more, own).requirements.slot(mode) == classify_fragments(
            fragments,
            own,
        ).requirements.slot(mode),
{
    lemma_fragments_keep_tree(fragments, more, own, mode);
    lemma_flush_keeps_tree(classify_fragments(fragments + more, own), None, mode);
}

} // verus!
