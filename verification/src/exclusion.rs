//! Why a course never stands in its own requirement trees: the classifier
//! passes over its identifier, and nothing that the tree builder reads from
//! the gathered text can bring it back.

use vstd::prelude::*;
use crate::identifier::{
    first_separator, is_separator, lemma_first_separator_bounds, lemma_first_separator_is_first,
    lemma_number_characters, parse_identifier, CourseKey,
};
use crate::requirements::{
    accepts_course, braced, char_step, classify_fragments, classify_spec, emits_course,
    flush_spec, is_bracket, is_logic, mode_keyword, scan_chars, strip_leading_logic, strip_logic,
    strip_trailing_logic, tree_of_text, with_separate, with_text, ClassifierState,
    CourseRequirementMode, RequirementsView, ScanView,
};
use crate::text::{
    char_is_alphabetic, char_is_whitespace, lemma_trim_all_fixed, lemma_trim_end_tail,
    normalize_spec, trim, trim_all_spec, trim_start,
};
use crate::tree::{
    build, build_step, lemma_build_wf, scan, scan_start, scan_step, structural_token, ArenaNode,
    NodeKind, ScanState, TokenView,
};

verus! {

/// Whether `token` is course text that is no identifier.
pub open spec fn is_invalid_course(token: TokenView) -> bool {
    token is Course && parse_identifier(token->Course_0) is None
}

/// Whether `token` is course text that writes the identifier `own`.
pub open spec fn names_course(token: TokenView, own: CourseKey) -> bool {
    token is Course && parse_identifier(token->Course_0) == Some(own)
}

/// Whether no tree with the course `own` in it can come of `tokens`: one of
/// them is course text that is no identifier, or none of them writes `own`.
pub open spec fn tokens_safe(tokens: Seq<TokenView>, own: CourseKey) -> bool {
    (exists|i: int| 0 <= i < tokens.len() && is_invalid_course(#[trigger] tokens[i])) || (forall|
        i: int,
    |
        0 <= i < tokens.len() ==> !names_course(#[trigger] tokens[i], own))
}

/// Whether no node of `a` is the course `own`.
pub open spec fn arena_avoids(a: Seq<ArenaNode>, own: CourseKey) -> bool {
    forall|i: int| 0 <= i < a.len() ==> (#[trigger] a[i]).kind != NodeKind::Course(own)
}

/// Course text that is no identifier makes the builder fail.
pub proof fn lemma_invalid_token_fails(tokens: Seq<TokenView>, i: int)
    requires
        0 <= i < tokens.len(),
        is_invalid_course(tokens[i]),
    ensures
        build(tokens) is Err,
    decreases tokens.len(),
{
    if i < tokens.len() - 1 {
        assert(tokens.drop_last()[i] == tokens[i]);
        lemma_invalid_token_fails(tokens.drop_last(), i);
    }
}

/// Tokens of which none writes `own` give a tree without `own`.
pub proof fn lemma_build_avoids(tokens: Seq<TokenView>, own: CourseKey)
    requires
        forall|i: int| 0 <= i < tokens.len() ==> !names_course(#[trigger] tokens[i], own),
        build(tokens) is Ok,
    ensures
        arena_avoids(build(tokens)->Ok_0.arena, own),
    decreases tokens.len(),
{
    if tokens.len() > 0 {
        let before = tokens.drop_last();
        assert forall|i: int| 0 <= i < before.len() implies !names_course(
            #[trigger] before[i],
            own,
        ) by {
            assert(before[i] == tokens[i]);
        }
        lemma_build_avoids(before, own);
        lemma_build_wf(before);
        let st = build(before)->Ok_0;
        let token = tokens.last();
        assert(!names_course(tokens[tokens.len() - 1], own));
        let next = build_step(st, token)->Ok_0;
        let top = st.stack.last();
        assert(0 <= top < st.arena.len());
        assert forall|i: int| 0 <= i < next.arena.len() implies (#[trigger] next.arena[i]).kind
            != NodeKind::Course(own) by {
            if i < st.arena.len() && i != top {
                assert(next.arena[i] == st.arena[i]);
            }
            if i == top {
                assert(st.arena[top].kind != NodeKind::Course(own));
            }
        }
    }
}

/// Safe tokens give no tree, or a tree without `own`.
pub proof fn lemma_safe_build_avoids(tokens: Seq<TokenView>, own: CourseKey)
    requires
        tokens_safe(tokens, own),
        build(tokens) is Ok,
    ensures
        arena_avoids(build(tokens)->Ok_0.arena, own),
{
    if exists|i: int| 0 <= i < tokens.len() && is_invalid_course(#[trigger] tokens[i]) {
        let i = choose|i: int| 0 <= i < tokens.len() && is_invalid_course(#[trigger] tokens[i]);
        lemma_invalid_token_fails(tokens, i);
    } else {
        lemma_build_avoids(tokens, own);
    }
}

/// The tokenizer after the characters of `more`, begun where `from` stands.
pub open spec fn scan_from(from: Option<ScanState>, more: Seq<char>) -> Option<ScanState>
    decreases more.len(),
{
    if more.len() == 0 {
        from
    } else {
        match scan_from(from, more.drop_last()) {
            Some(st) => scan_step(st, more.last()),
            None => None,
        }
    }
}

/// Scanning a text in two parts is scanning it whole.
pub proof fn lemma_scan_concat(text: Seq<char>, more: Seq<char>)
    ensures
        scan(text + more) == scan_from(scan(text), more),
    decreases more.len(),
{
    if more.len() == 0 {
        assert(text + more =~= text);
    } else {
        assert((text + more).drop_last() =~= text + more.drop_last());
        lemma_scan_concat(text, more.drop_last());
    }
}

/// A tokenizer that has failed stays failed.
pub proof fn lemma_scan_from_none(more: Seq<char>)
    ensures
        scan_from(None, more) is None,
    decreases more.len(),
{
    if more.len() > 0 {
        lemma_scan_from_none(more.drop_last());
    }
}

/// Scanning one part after another is scanning both in a row.
pub proof fn lemma_scan_from_concat(from: Option<ScanState>, a: Seq<char>, b: Seq<char>)
    ensures
        scan_from(from, a + b) == scan_from(scan_from(from, a), b),
    decreases b.len(),
{
    if b.len() == 0 {
        assert(a + b =~= a);
    } else {
        assert((a + b).drop_last() =~= a + b.drop_last());
        lemma_scan_from_concat(from, a, b.drop_last());
    }
}

/// Inside braces, characters other than the closing brace gather in the
/// buffer.
pub proof fn lemma_scan_inside_run(st: ScanState, w: Seq<char>)
    requires
        st.inside,
        forall|i: int| 0 <= i < w.len() ==> w[i] != '}',
    ensures
        scan_from(Some(st), w) == Some(ScanState { buffer: st.buffer + w, ..st }),
    decreases w.len(),
{
    if w.len() == 0 {
        assert(st.buffer + w =~= st.buffer);
    } else {
        lemma_scan_inside_run(st, w.drop_last());
        assert(w[w.len() - 1] != '}');
        assert((st.buffer + w.drop_last()).push(w.last()) =~= st.buffer + w);
    }
}

/// The tokenizer never takes back a token.
pub proof fn lemma_scan_from_keeps_tokens(st: ScanState, more: Seq<char>)
    requires
        scan_from(Some(st), more) is Some,
    ensures
        st.tokens.len() <= scan_from(Some(st), more)->Some_0.tokens.len(),
        forall|i: int|
            0 <= i < st.tokens.len() ==> scan_from(Some(st), more)->Some_0.tokens[i]
                == st.tokens[i],
    decreases more.len(),
{
    if more.len() > 0 {
        lemma_scan_from_keeps_tokens(st, more.drop_last());
    }
}

/// Whether the gathered text `text` can be handed to the tree builder
/// without harm: the tokenizer fails on it, or stands outside braces with
/// safe tokens.
pub open spec fn text_ok(text: Seq<char>, own: CourseKey) -> bool {
    match scan(text) {
        Some(st) => !st.inside && st.buffer.len() == 0 && tokens_safe(st.tokens, own),
        None => true,
    }
}

/// One more token that does not write `own` keeps tokens safe.
pub proof fn lemma_safe_push(tokens: Seq<TokenView>, token: TokenView, own: CourseKey)
    requires
        tokens_safe(tokens, own),
        !names_course(token, own),
    ensures
        tokens_safe(tokens.push(token), own),
{
    let next = tokens.push(token);
    if exists|i: int| 0 <= i < tokens.len() && is_invalid_course(#[trigger] tokens[i]) {
        let i = choose|i: int| 0 <= i < tokens.len() && is_invalid_course(#[trigger] tokens[i]);
        assert(is_invalid_course(next[i]));
    } else {
        assert forall|i: int| 0 <= i < next.len() implies !names_course(
            #[trigger] next[i],
            own,
        ) by {
            if i < tokens.len() {
                assert(next[i] == tokens[i]);
            }
        }
    }
}

/// A bracket or a logic character at the end keeps the gathered text
/// harmless.
pub proof fn lemma_push_structural(text: Seq<char>, c: char, own: CourseKey)
    requires
        text_ok(text, own),
        c == '(' || c == ')' || c == '[' || c == ']' || c == '&' || c == '|',
    ensures
        text_ok(text.push(c), own),
{
    assert(text.push(c).drop_last() =~= text);
    match scan(text) {
        Some(st) => {
            let token = structural_token(c)->Some_0;
            lemma_safe_push(st.tokens, token, own);
        },
        None => {},
    }
}

/// Text without a separator has its first separator at its end.
pub proof fn lemma_no_separator(s: Seq<char>)
    requires
        forall|i: int| 0 <= i < s.len() ==> !is_separator(#[trigger] s[i]),
    ensures
        first_separator(s) == s.len(),
        parse_identifier(s) is None,
    decreases s.len(),
{
    if s.len() > 0 {
        assert(!is_separator(s[0]));
        assert forall|i: int| 0 <= i < s.drop_first().len() implies !is_separator(
            #[trigger] s.drop_first()[i],
        ) by {
            assert(s.drop_first()[i] == s[i + 1]);
        }
        lemma_no_separator(s.drop_first());
    }
}

/// What is left of `s` without its leading whitespace is the end of `s`.
pub proof fn lemma_trim_start_suffix(s: Seq<char>)
    ensures
        trim_start(s).len() <= s.len(),
        trim_start(s) == s.subrange(s.len() - trim_start(s).len(), s.len() as int),
    decreases s.len(),
{
    if s.len() > 0 && char_is_whitespace(s[0]) {
        lemma_trim_start_suffix(s.drop_first());
        let k = s.drop_first().len() - trim_start(s).len();
        assert(s.drop_first().subrange(k, s.drop_first().len() as int) =~= s.subrange(
            k + 1,
            s.len() as int,
        ));
    } else {
        assert(s.subrange(0, s.len() as int) =~= s);
    }
}

/// Trimming brings no separator into text that has none.
pub proof fn lemma_trim_no_separator(s: Seq<char>)
    requires
        forall|i: int| 0 <= i < s.len() ==> !is_separator(#[trigger] s[i]),
    ensures
        parse_identifier(trim(s)) is None,
{
    lemma_trim_start_suffix(s);
    lemma_trim_end_tail(trim_start(s));
    let a = trim_start(s);
    let t = trim(s);
    let off = s.len() - a.len();
    assert forall|j: int| 0 <= j < t.len() implies !is_separator(#[trigger] t[j]) by {
        assert(t[j] == a[j]);
        assert(a[j] == s[off + j]);
    }
    lemma_no_separator(t);
}

/// The position of the first closing brace of `s`, or the length of `s`
/// where it has none.
pub open spec fn first_closing(s: Seq<char>) -> int
    decreases s.len(),
{
    if s.len() == 0 || s[0] == '}' {
        0
    } else {
        1 + first_closing(s.drop_first())
    }
}

/// The first closing brace lies within the text or at its end, and no
/// closing brace stands before it.
pub proof fn lemma_first_closing(s: Seq<char>)
    ensures
        0 <= first_closing(s) <= s.len(),
        forall|i: int| 0 <= i < first_closing(s) ==> #[trigger] s[i] != '}',
        first_closing(s) < s.len() ==> s[first_closing(s)] == '}',
    decreases s.len(),
{
    if !(s.len() == 0 || s[0] == '}') {
        lemma_first_closing(s.drop_first());
        assert forall|i: int| 0 <= i < first_closing(s) implies #[trigger] s[i] != '}' by {
            if i > 0 {
                assert(s[i] == s.drop_first()[i - 1]);
            }
        }
    }
}

/// In an identifier a closing brace behind the first separator can only be
/// the last character.
pub proof fn lemma_brace_behind_separator(w: Seq<char>, p: int)
    requires
        parse_identifier(w) is Some,
        first_separator(w) < p < w.len(),
        w[p] == '}',
    ensures
        p == w.len() - 1,
{
    let k = first_separator(w);
    lemma_first_separator_bounds(w);
    let rest = w.subrange(k + 1, w.len() as int);
    let j = p - k - 1;
    assert(rest[j] == '}');
    if p < w.len() - 1 {
        if char_is_alphabetic(rest.last()) {
            assert(rest.drop_last()[j] == '}');
            lemma_number_characters(rest.drop_last(), j);
        } else {
            lemma_number_characters(rest, j);
        }
    }
}

/// A course identifier other than `own`, put in braces at the end, keeps
/// the gathered text harmless.
pub proof fn lemma_emit_ok(text: Seq<char>, w: Seq<char>, own: CourseKey)
    requires
        text_ok(text, own),
        parse_identifier(w) is Some,
        parse_identifier(w) != Some(own),
        trim(w) == w,
    ensures
        text_ok(text + braced(w), own),
{
    let emitted = braced(w);
    lemma_scan_concat(text, emitted);
    match scan(text) {
        None => {
            lemma_scan_from_none(emitted);
        },
        Some(st) => {
            let opened = ScanState { inside: true, ..st };
            let p = first_closing(w);
            lemma_first_closing(w);
            let head = w.subrange(0, p);
            let tail = w.subrange(p, w.len() as int) + seq!['}'];
            assert(emitted =~= seq!['{'] + head + tail);
            lemma_scan_from_concat(Some(st), seq!['{'] + head, tail);
            lemma_scan_from_concat(Some(st), seq!['{'], head);
            assert(scan_from(Some(st), seq!['{']) == Some(opened)) by {
                assert(seq!['{'].drop_last() =~= Seq::<char>::empty());
                assert(scan_from(Some(st), Seq::<char>::empty()) == Some(st));
            }
            lemma_scan_inside_run(opened, head);
            let filled = ScanState { buffer: opened.buffer + head, ..opened };
            assert(opened.buffer + head =~= head);
            assert(scan_from(Some(st), seq!['{'] + head) == Some(filled));
            // what follows is `tail`, which begins with a closing brace
            let token = TokenView::Course(trim(head));
            let closed = ScanState {
                tokens: st.tokens.push(token),
                buffer: Seq::empty(),
                inside: false,
            };
            let after = tail.drop_first();
            assert(tail[0] == '}');
            assert(tail =~= seq!['}'] + after);
            lemma_scan_from_concat(Some(filled), seq!['}'], after);
            assert(scan_from(Some(filled), seq!['}']) == Some(closed)) by {
                assert(seq!['}'].drop_last() =~= Seq::<char>::empty());
                assert(scan_from(Some(filled), Seq::<char>::empty()) == Some(filled));
            }
            assert(scan(text + emitted) == scan_from(Some(closed), after));
            if p == w.len() {
                assert(head =~= w);
                assert(after =~= Seq::<char>::empty());
                lemma_safe_push(st.tokens, token, own);
            } else {
                lemma_first_separator_is_first(w);
                lemma_first_separator_bounds(w);
                if p <= first_separator(w) {
                    assert forall|i: int| 0 <= i < head.len() implies !is_separator(
                        #[trigger] head[i],
                    ) by {
                        assert(head[i] == w[i]);
                    }
                    lemma_trim_no_separator(head);
                    assert(is_invalid_course(token));
                    assert(closed.tokens[st.tokens.len() as int] == token);
                    match scan_from(Some(closed), after) {
                        Some(last) => {
                            lemma_scan_from_keeps_tokens(closed, after);
                            assert(is_invalid_course(last.tokens[st.tokens.len() as int]));
                            assert(after.last() == '}');
                            assert(after.len() > 0);
                            let before_last = scan_from(Some(closed), after.drop_last());
                            assert(before_last is Some);
                        },
                        None => {},
                    }
                } else {
                    lemma_brace_behind_separator(w, p);
                    assert(after =~= seq!['}']);
                    assert(after.drop_last() =~= Seq::<char>::empty());
                    assert(scan_from(Some(closed), Seq::<char>::empty()) == Some(closed));
                    assert(scan_from(Some(closed), after) is None);
                }
            }
        },
    }
}

/// `from` with `token` in front of its tokens.
pub open spec fn with_first_token(from: Option<ScanState>, token: TokenView) -> Option<ScanState> {
    match from {
        Some(st) => Some(ScanState { tokens: seq![token] + st.tokens, ..st }),
        None => None,
    }
}

/// A logic character in front of a text adds its token in front of the
/// tokens and changes nothing else.
pub proof fn lemma_scan_drop_first_logic(s: Seq<char>)
    requires
        s.len() > 0,
        s[0] == '&' || s[0] == '|',
    ensures
        scan(s) == with_first_token(
            scan(s.drop_first()),
            structural_token(s[0])->Some_0,
        ),
    decreases s.len(),
{
    let token = structural_token(s[0])->Some_0;
    if s.len() == 1 {
        assert(s.drop_last() =~= Seq::<char>::empty());
        assert(s.drop_first() =~= Seq::<char>::empty());
        assert(scan(s)->Some_0.tokens =~= seq![token] + Seq::<TokenView>::empty());
    } else {
        lemma_scan_drop_first_logic(s.drop_last());
        assert(s.drop_last().drop_first() =~= s.drop_first().drop_last());
        assert(s.drop_first().last() == s.last());
        match scan(s.drop_first().drop_last()) {
            Some(st) => {
                let shifted = ScanState { tokens: seq![token] + st.tokens, ..st };
                match scan_step(st, s.last()) {
                    Some(next) => {
                        assert(scan_step(shifted, s.last())->Some_0.tokens =~= seq![token]
                            + next.tokens);
                    },
                    None => {},
                }
            },
            None => {},
        }
    }
}

/// Without a logic token in front, safe tokens stay safe.
pub proof fn lemma_safe_without_first(token: TokenView, tokens: Seq<TokenView>, own: CourseKey)
    requires
        tokens_safe(seq![token] + tokens, own),
        !(token is Course),
    ensures
        tokens_safe(tokens, own),
{
    let all = seq![token] + tokens;
    if exists|i: int| 0 <= i < all.len() && is_invalid_course(#[trigger] all[i]) {
        let i = choose|i: int| 0 <= i < all.len() && is_invalid_course(#[trigger] all[i]);
        assert(i > 0);
        assert(all[i] == tokens[i - 1]);
        assert(is_invalid_course(tokens[i - 1]));
    } else {
        assert forall|i: int| 0 <= i < tokens.len() implies !names_course(
            #[trigger] tokens[i],
            own,
        ) by {
            assert(all[i + 1] == tokens[i]);
        }
    }
}

/// Without a logic token at the end, safe tokens stay safe.
pub proof fn lemma_safe_without_last(tokens: Seq<TokenView>, own: CourseKey)
    requires
        tokens.len() > 0,
        tokens_safe(tokens, own),
        !(tokens.last() is Course),
    ensures
        tokens_safe(tokens.drop_last(), own),
{
    let fewer = tokens.drop_last();
    if exists|i: int| 0 <= i < tokens.len() && is_invalid_course(#[trigger] tokens[i]) {
        let i = choose|i: int| 0 <= i < tokens.len() && is_invalid_course(#[trigger] tokens[i]);
        assert(i < tokens.len() - 1);
        assert(is_invalid_course(fewer[i]));
    } else {
        assert forall|i: int| 0 <= i < fewer.len() implies !names_course(
            #[trigger] fewer[i],
            own,
        ) by {
            assert(fewer[i] == tokens[i]);
        }
    }
}

/// Gathered text stays harmless without the logic characters at its start.
pub proof fn lemma_strip_leading_ok(text: Seq<char>, own: CourseKey)
    requires
        text_ok(text, own),
    ensures
        text_ok(strip_leading_logic(text), own),
    decreases text.len(),
{
    if text.len() > 0 && is_logic(text[0]) {
        lemma_scan_drop_first_logic(text);
        match scan(text.drop_first()) {
            Some(st) => {
                lemma_safe_without_first(
                    structural_token(text[0])->Some_0,
                    st.tokens,
                    own,
                );
            },
            None => {},
        }
        lemma_strip_leading_ok(text.drop_first(), own);
    }
}

/// Gathered text stays harmless without the logic characters at its end.
pub proof fn lemma_strip_trailing_ok(text: Seq<char>, own: CourseKey)
    requires
        text_ok(text, own),
    ensures
        text_ok(strip_trailing_logic(text), own),
    decreases text.len(),
{
    if text.len() > 0 && is_logic(text.last()) {
        match scan(text.drop_last()) {
            Some(st) => {
                match scan(text) {
                    Some(next) => {
                        assert(!st.inside);
                        assert(next.tokens.drop_last() =~= st.tokens);
                        lemma_safe_without_last(next.tokens, own);
                    },
                    None => {},
                }
            },
            None => {},
        }
        lemma_strip_trailing_ok(text.drop_last(), own);
    }
}

/// The tree that harmless text gives does not hold `own`.
pub proof fn lemma_tree_of_text_avoids(text: Seq<char>, own: CourseKey)
    requires
        text_ok(text, own),
    ensures
        match tree_of_text(text) {
            Some(a) => arena_avoids(a, own),
            None => true,
        },
{
    lemma_strip_leading_ok(text, own);
    lemma_strip_trailing_ok(strip_leading_logic(text), own);
    let stripped = strip_logic(text);
    match scan(stripped) {
        Some(st) => {
            if build(st.tokens) is Ok {
                lemma_safe_build_avoids(st.tokens, own);
            }
        },
        None => {},
    }
}

/// Whether an optional tree does not hold the course `own`.
pub open spec fn slot_avoids(tree: Option<Seq<ArenaNode>>, own: CourseKey) -> bool {
    match tree {
        Some(a) => arena_avoids(a, own),
        None => true,
    }
}

/// Whether none of the four trees holds the course `own`.
pub open spec fn requirements_avoid(r: RequirementsView, own: CourseKey) -> bool {
    slot_avoids(r.prerequisites, own) && slot_avoids(r.concurrent, own) && slot_avoids(
        r.corequisites,
        own,
    ) && slot_avoids(r.recommended, own)
}

/// Whether the classifier stands so that the course `own` is in none of its
/// trees and can come into none.
pub open spec fn state_ok(st: ClassifierState, own: CourseKey) -> bool {
    text_ok(st.text, own) && requirements_avoid(st.requirements, own)
}

/// A flush keeps the classifier free of `own`.
pub proof fn lemma_flush_ok(
    st: ClassifierState,
    next: Option<CourseRequirementMode>,
    own: CourseKey,
)
    requires
        state_ok(st, own),
    ensures
        state_ok(flush_spec(st, next), own),
{
    lemma_tree_of_text_avoids(st.text, own);
    assert(scan(Seq::<char>::empty()) == Some(scan_start()));
}

/// One more character keeps the classifier free of `own`.
pub proof fn lemma_char_step_ok(sc: ScanView, fragment: Seq<char>, i: int, own: CourseKey)
    requires
        state_ok(sc.st, own),
        0 <= i < fragment.len(),
    ensures
        state_ok(char_step(sc, fragment, i, own).st, own),
{
    let c = fragment[i];
    let text = if is_bracket(c) {
        sc.st.text.push(c)
    } else {
        sc.st.text
    };
    if is_bracket(c) {
        lemma_push_structural(sc.st.text, c, own);
    }
    let word = if is_bracket(c) || c == '.' || c == ':' {
        sc.word
    } else {
        sc.word.push(c)
    };
    let st = with_text(sc.st, text);
    let w = trim_all_spec(word);
    assert(state_ok(st, own));
    lemma_push_structural(text, '&', own);
    lemma_push_structural(text, '|', own);
    lemma_flush_ok(st, mode_keyword(w), own);
    lemma_flush_ok(
        with_separate(st),
        mode_keyword(w),
        own,
    );
    if accepts_course(w, fragment, i) && emits_course(
        w,
        text,
        own,
    ) {
        lemma_trim_all_fixed(word);
        lemma_emit_ok(text, w, own);
    }
}

/// The characters of a fragment keep the classifier free of `own`.
pub proof fn lemma_scan_chars_ok(st: ClassifierState, fragment: Seq<char>, n: nat, own: CourseKey)
    requires
        state_ok(st, own),
        n <= fragment.len(),
    ensures
        state_ok(scan_chars(st, fragment, n, own).st, own),
    decreases n,
{
    if n > 0 {
        lemma_scan_chars_ok(st, fragment, (n - 1) as nat, own);
        lemma_char_step_ok(scan_chars(st, fragment, (n - 1) as nat, own), fragment, n - 1, own);
    }
}

/// The fragments of a course keep the classifier free of it.
pub proof fn lemma_classify_fragments_ok(fragments: Seq<Seq<char>>, own: CourseKey)
    ensures
        state_ok(classify_fragments(fragments, own), own),
    decreases fragments.len(),
{
    if fragments.len() == 0 {
        assert(scan(Seq::<char>::empty()) == Some(scan_start()));
    } else {
        lemma_classify_fragments_ok(fragments.drop_last(), own);
        let st = classify_fragments(fragments.drop_last(), own);
        let fragment = normalize_spec(fragments.last());
        lemma_scan_chars_ok(st, fragment, fragment.len(), own);
    }
}

/// A course is in none of its own requirement trees, whatever the text
/// says: no node of a tree that the classifier builds for the course `own`
/// is the course `own`.
pub proof fn lemma_own_course_excluded(fragments: Seq<Seq<char>>, own: CourseKey)
    ensures
        requirements_avoid(classify_spec(fragments, own).requirements, own),
{
    lemma_classify_fragments_ok(fragments, own);
    lemma_flush_ok(classify_fragments(fragments, own), None, own);
}

} // verus!
