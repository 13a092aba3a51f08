//! Character-level helpers: conversion between strings and character
//! vectors, case folding, trimming, whitespace collapse and literal
//! substring replacement.

use vstd::prelude::*;
use vstd::std_specs::iter::IteratorSpec;
use vstd::string::*;

verus! {

/// Whether `c` is whitespace: one of the code points that carry the Unicode
/// `White_Space` property.
pub open spec fn char_is_whitespace(c: char) -> bool {
    let n = c as u32;
    (0x09 <= n && n <= 0x0D) || n == 0x20 || n == 0x85 || n == 0xA0 || n == 0x1680 || (0x2000
        <= n && n <= 0x200A) || n == 0x2028 || n == 0x2029 || n == 0x202F || n == 0x205F || n
        == 0x3000
}

/// Whether `c` carries the Unicode `Alphabetic` property, as
/// `char::is_alphabetic` reports it.
pub uninterp spec fn char_is_alphabetic(c: char) -> bool;

/// Whether `c` is whitespace.
pub fn is_whitespace(c: char) -> (r: bool)
    ensures
        r == char_is_whitespace(c),
{
    let n: u32 = c as u32;
    (0x09 <= n && n <= 0x0D) || n == 0x20 || n == 0x85 || n == 0xA0 || n == 0x1680 || (0x2000
        <= n && n <= 0x200A) || n == 0x2028 || n == 0x2029 || n == 0x202F || n == 0x205F || n
        == 0x3000
}

/// Calls `char::is_alphabetic`. The contract only names the answer: the
/// property is a table of the Unicode standard.
#[verifier::external_body]
pub(crate) fn is_alphabetic(c: char) -> (r: bool)
    ensures
        r == char_is_alphabetic(c),
{
    c.is_alphabetic()
}

/// Calls `String::push`, which appends one character to the string.
#[verifier::external_body]
pub(crate) fn string_push(s: &mut String, c: char)
    ensures
        final(s)@ == old(s)@.push(c),
{
    s.push(c)
}

/// The characters of `s`, in order.
pub fn to_chars(s: &str) -> (r: Vec<char>)
    ensures
        r@ == s@,
{
    broadcast use {axiom_spec_iter, next_postcondition};

    let mut it = s.chars();
    let mut r: Vec<char> = Vec::new();
    assert(r@ + it.remaining() =~= s@);
    loop
        invariant
            r@ + it.remaining() == s@,
            it.obeys_prophetic_iter_laws(),
            it.decrease() is Some,
        ensures
            r@ == s@,
        decreases it.decrease()->0,
    {
        let ghost before = r@;
        let ghost rest = it.remaining();
        match it.next() {
            Some(c) => {
                r.push(c);
                assert(r@ + it.remaining() =~= before + rest);
            },
            None => {
                assert(before + rest =~= before);
                break ;
            },
        }
    }
    r
}

/// The string made of the characters of `v`, in order.
pub fn from_chars(v: &Vec<char>) -> (r: String)
    ensures
        r@ == v@,
{
    let mut r = String::new();
    let mut i: usize = 0;
    while i < v.len()
        invariant
            i <= v.len(),
            r@ == v@.subrange(0, i as int),
        decreases v.len() - i,
    {
        string_push(&mut r, v[i]);
        i += 1;
        assert(r@ =~= v@.subrange(0, i as int));
    }
    assert(v@.subrange(0, v.len() as int) =~= v@);
    r
}

/// `c` with an ASCII lower-case letter replaced by its upper-case form.
pub open spec fn ascii_upper(c: char) -> char {
    if 'a' <= c && c <= 'z' {
        ((c as u8) - 32) as char
    } else {
        c
    }
}

/// `s` with each ASCII lower-case letter replaced by its upper-case form.
pub open spec fn upper(s: Seq<char>) -> Seq<char> {
    Seq::new(s.len(), |i: int| ascii_upper(s[i]))
}

/// `s` without its leading whitespace.
pub open spec fn trim_start(s: Seq<char>) -> Seq<char>
    decreases s.len(),
{
    if s.len() > 0 && char_is_whitespace(s[0]) {
        trim_start(s.drop_first())
    } else {
        s
    }
}

/// `s` without its trailing whitespace.
pub open spec fn trim_end(s: Seq<char>) -> Seq<char>
    decreases s.len(),
{
    if s.len() > 0 && char_is_whitespace(s.last()) {
        trim_end(s.drop_last())
    } else {
        s
    }
}

/// `s` without its leading and trailing whitespace.
pub open spec fn trim(s: Seq<char>) -> Seq<char> {
    trim_end(trim_start(s))
}

/// `s` without its spaces, except one space between two words: a character
/// that follows a space is preceded by a single space in the result, unless
/// nothing was kept before it.
pub open spec fn collapse_spaces(s: Seq<char>) -> Seq<char>
    decreases s.len(),
{
    if s.len() == 0 {
        s
    } else {
        let before = collapse_spaces(s.drop_last());
        if s.last() == ' ' {
            before
        } else if s.len() >= 2 && s[s.len() - 2] == ' ' && before.len() > 0 {
            before.push(' ').push(s.last())
        } else {
            before.push(s.last())
        }
    }
}

/// `s` trimmed, with every run of spaces inside it reduced to one space.
pub open spec fn trim_all_spec(s: Seq<char>) -> Seq<char> {
    collapse_spaces(trim(s))
}

/// Whether `s` begins with `prefix`.
pub open spec fn has_prefix(s: Seq<char>, prefix: Seq<char>) -> bool {
    prefix.len() <= s.len() && s.subrange(0, prefix.len() as int) == prefix
}

/// `s` with each occurrence of `from` replaced by `to`, the occurrences taken
/// from the left and not overlapping. An empty `from` matches before every
/// character and at the end.
pub open spec fn replace(s: Seq<char>, from: Seq<char>, to: Seq<char>) -> Seq<char>
    decreases s.len(),
{
    if from.len() == 0 {
        if s.len() == 0 {
            to
        } else {
            to + seq![s[0]] + replace(s.drop_first(), from, to)
        }
    } else if has_prefix(s, from) {
        to + replace(s.subrange(from.len() as int, s.len() as int), from, to)
    } else if s.len() == 0 {
        s
    } else {
        seq![s[0]] + replace(s.drop_first(), from, to)
    }
}

/// `s` after the replacements of `pairs`, applied one after the other.
pub open spec fn replace_many_spec(s: Seq<char>, pairs: Seq<(Seq<char>, Seq<char>)>) -> Seq<char>
    decreases pairs.len(),
{
    if pairs.len() == 0 {
        s
    } else {
        replace_many_spec(replace(s, pairs[0].0, pairs[0].1), pairs.drop_first())
    }
}

/// The upper-case form of an ASCII lower-case letter; any other character
/// unchanged.
pub fn to_ascii_upper(c: char) -> (r: char)
    ensures
        r == ascii_upper(c),
{
    if 'a' <= c && c <= 'z' {
        ((c as u8) - 32u8) as char
    } else {
        c
    }
}

/// The characters of `s`, ASCII letters in upper case.
pub fn to_upper(s: &Vec<char>) -> (r: Vec<char>)
    ensures
        r@ == upper(s@),
{
    let mut r: Vec<char> = Vec::new();
    let mut i: usize = 0;
    while i < s.len()
        invariant
            i <= s.len(),
            r@.len() == i,
            forall|j: int| 0 <= j < i ==> r@[j] == ascii_upper(s@[j]),
        decreases s.len() - i,
    {
        r.push(to_ascii_upper(s[i]));
        i += 1;
    }
    assert(r@ =~= upper(s@));
    r
}

/// Whether the two character sequences are equal.
pub fn chars_eq(a: &Vec<char>, b: &Vec<char>) -> (r: bool)
    ensures
        r == (a@ == b@),
{
    if a.len() != b.len() {
        return false;
    }
    let mut i: usize = 0;
    while i < a.len()
        invariant
            a.len() == b.len(),
            i <= a.len(),
            forall|j: int| 0 <= j < i ==> a@[j] == b@[j],
        decreases a.len() - i,
    {
        if a[i] != b[i] {
            return false;
        }
        i += 1;
    }
    assert(a@ =~= b@);
    true
}

/// Whether `a` holds exactly the characters of `b`.
pub fn chars_are(a: &Vec<char>, b: &str) -> (r: bool)
    ensures
        r == (a@ == b@),
{
    let v = to_chars(b);
    chars_eq(a, &v)
}

/// Whether `pattern` occurs in `s`.
pub open spec fn has_infix(s: Seq<char>, pattern: Seq<char>) -> bool {
    exists|i: int| has_infix_at(s, pattern, i)
}

/// Whether `pattern` occurs in `s` at position `i`.
pub open spec fn has_infix_at(s: Seq<char>, pattern: Seq<char>, i: int) -> bool {
    0 <= i && i + pattern.len() <= s.len() && s.subrange(i, i + pattern.len()) == pattern
}

/// The part of `s` from position `from` up to position `to`.
pub fn slice_of(s: &Vec<char>, from: usize, to: usize) -> (r: Vec<char>)
    requires
        from <= to <= s.len(),
    ensures
        r@ == s@.subrange(from as int, to as int),
{
    let mut r: Vec<char> = Vec::new();
    let mut i: usize = from;
    while i < to
        invariant
            from <= i <= to <= s.len(),
            r@ == s@.subrange(from as int, i as int),
        decreases to - i,
    {
        r.push(s[i]);
        i += 1;
        assert(r@ =~= s@.subrange(from as int, i as int));
    }
    r
}

/// Appends the characters of `tail` to `v`.
pub fn append_chars(v: &mut Vec<char>, tail: &Vec<char>)
    ensures
        final(v)@ == old(v)@ + tail@,
{
    let mut i: usize = 0;
    while i < tail.len()
        invariant
            i <= tail.len(),
            v@ == old(v)@ + tail@.subrange(0, i as int),
        decreases tail.len() - i,
    {
        v.push(tail[i]);
        i += 1;
        assert(v@ =~= old(v)@ + tail@.subrange(0, i as int));
    }
    assert(tail@.subrange(0, tail.len() as int) =~= tail@);
}

/// Whether `pattern` occurs in `s` at position `at`.
pub fn matches_at(s: &Vec<char>, pattern: &Vec<char>, at: usize) -> (r: bool)
    requires
        at <= s.len(),
    ensures
        r == has_infix_at(s@, pattern@, at as int),
{
    if pattern.len() > s.len() - at {
        return false;
    }
    let mut j: usize = 0;
    while j < pattern.len()
        invariant
            at + pattern.len() <= s.len(),
            j <= pattern.len(),
            forall|k: int| 0 <= k < j ==> s@[at + k] == pattern@[k],
        decreases pattern.len() - j,
    {
        if s[at + j] != pattern[j] {
            assert(s@.subrange(at as int, at + pattern.len())[j as int] != pattern@[j as int]);
            return false;
        }
        j += 1;
    }
    assert(s@.subrange(at as int, at + pattern.len()) =~= pattern@);
    true
}

/// Whether `s` begins with `prefix`.
pub fn starts_with(s: &Vec<char>, prefix: &Vec<char>) -> (r: bool)
    ensures
        r == has_prefix(s@, prefix@),
{
    matches_at(s, prefix, 0)
}

/// Whether `pattern` occurs in `s`.
pub fn contains(s: &Vec<char>, pattern: &Vec<char>) -> (r: bool)
    ensures
        r == has_infix(s@, pattern@),
{
    let mut i: usize = 0;
    while i <= s.len()
        invariant
            i <= s.len() + 1,
            forall|k: int| 0 <= k < i ==> !has_infix_at(s@, pattern@, k),
        decreases s.len() + 1 - i,
    {
        if matches_at(s, pattern, i) {
            return true;
        }
        if i == s.len() {
            return false;
        }
        i += 1;
    }
    false
}

/// `s` without its leading and trailing whitespace.
pub fn trim_chars(s: &Vec<char>) -> (r: Vec<char>)
    ensures
        r@ == trim(s@),
{
    let n: usize = s.len();
    let mut start: usize = 0;
    assert(s@.subrange(0, n as int) =~= s@);
    while start < n && is_whitespace(s[start])
        invariant
            n == s.len(),
            start <= n,
            trim_start(s@) == trim_start(s@.subrange(start as int, n as int)),
        decreases n - start,
    {
        assert(s@.subrange(start as int, n as int).drop_first() =~= s@.subrange(
            start + 1,
            n as int,
        ));
        start += 1;
    }
    assert(trim_start(s@) == s@.subrange(start as int, n as int));
    let mut end: usize = n;
    while end > start && is_whitespace(s[end - 1])
        invariant
            n == s.len(),
            start <= end <= n,
            trim(s@) == trim_end(s@.subrange(start as int, end as int)),
        decreases end,
    {
        assert(s@.subrange(start as int, end as int).drop_last() =~= s@.subrange(
            start as int,
            end - 1,
        ));
        end -= 1;
    }
    slice_of(s, start, end)
}

/// `s` trimmed, with every run of spaces inside it reduced to one space.
pub fn trim_all_chars(s: &Vec<char>) -> (r: Vec<char>)
    ensures
        r@ == trim_all_spec(s@),
{
    let t = trim_chars(s);
    let mut r: Vec<char> = Vec::new();
    let mut i: usize = 0;
    while i < t.len()
        invariant
            i <= t.len(),
            r@ == collapse_spaces(t@.subrange(0, i as int)),
        decreases t.len() - i,
    {
        let c = t[i];
        assert(t@.subrange(0, i + 1).drop_last() =~= t@.subrange(0, i as int));
        if c != ' ' {
            if i >= 1 && t[i - 1] == ' ' && r.len() > 0 {
                r.push(' ');
            }
            r.push(c);
        }
        i += 1;
    }
    assert(t@.subrange(0, t.len() as int) =~= t@);
    r
}

/// `s` with each occurrence of `from` replaced by `to`.
pub fn replace_chars(s: &Vec<char>, from: &Vec<char>, to: &Vec<char>) -> (r: Vec<char>)
    ensures
        r@ == replace(s@, from@, to@),
{
    let n: usize = s.len();
    let mut r: Vec<char> = Vec::new();
    let mut i: usize = 0;
    assert(s@.subrange(0, n as int) =~= s@);
    assert(r@ + replace(s@, from@, to@) =~= replace(s@, from@, to@));
    while i < n
        invariant
            n == s.len(),
            i <= n,
            r@ + replace(s@.subrange(i as int, n as int), from@, to@) == replace(s@, from@, to@),
        decreases n - i,
    {
        let ghost rest = s@.subrange(i as int, n as int);
        let ghost before = r@;
        if from.len() > 0 && matches_at(s, from, i) {
            assert(rest.subrange(0, from@.len() as int) =~= s@.subrange(
                i as int,
                i + from@.len(),
            ));
            assert(rest.subrange(from@.len() as int, rest.len() as int) =~= s@.subrange(
                i + from@.len(),
                n as int,
            ));
            append_chars(&mut r, to);
            i += from.len();
            assert(r@ + replace(s@.subrange(i as int, n as int), from@, to@) =~= before + replace(
                rest,
                from@,
                to@,
            ));
        } else {
            assert(from@.len() > 0 ==> !has_prefix(rest, from@)) by {
                if from@.len() > 0 && has_prefix(rest, from@) {
                    assert(rest.subrange(0, from@.len() as int) =~= s@.subrange(
                        i as int,
                        i + from@.len(),
                    ));
                }
            }
            assert(rest.drop_first() =~= s@.subrange(i + 1, n as int));
            if from.len() == 0 {
                append_chars(&mut r, to);
            }
            r.push(s[i]);
            i += 1;
            assert(r@ + replace(s@.subrange(i as int, n as int), from@, to@) =~= before + replace(
                rest,
                from@,
                to@,
            ));
        }
    }
    assert(s@.subrange(n as int, n as int) =~= Seq::<char>::empty());
    if from.len() == 0 {
        let ghost before = r@;
        append_chars(&mut r, to);
        assert(r@ =~= before + replace(Seq::<char>::empty(), from@, to@));
    } else {
        assert(r@ =~= r@ + replace(Seq::<char>::empty(), from@, to@));
    }
    r
}

/// The replacement pairs of `replacements`, as character sequences.
pub open spec fn pair_views(replacements: Seq<(&str, &str)>) -> Seq<(Seq<char>, Seq<char>)> {
    Seq::new(replacements.len(), |i: int| (replacements[i].0@, replacements[i].1@))
}

/// Whitespace collapse on text.
pub trait TrimAll {
    /// The characters of the text.
    spec fn text(&self) -> Seq<char>;

    /// The text trimmed, with every run of spaces inside it reduced to one
    /// space.
    fn trim_all(&self) -> (r: String)
        ensures
            r@ == trim_all_spec(self.text()),
    ;
}

impl TrimAll for str {
    open spec fn text(&self) -> Seq<char> {
        self@
    }

    fn trim_all(&self) -> (r: String) {
        let v = to_chars(self);
        let t = trim_all_chars(&v);
        from_chars(&t)
    }
}

/// A list of literal replacements on text.
pub trait ReplaceMany {
    /// The characters of the text.
    spec fn source(&self) -> Seq<char>;

    /// The text after the replacements, applied one after the other, each to
    /// the result of the one before.
    fn replace_many(&self, replacements: &[(&str, &str)]) -> (r: String)
        ensures
            r@ == replace_many_spec(self.source(), pair_views(replacements@)),
    ;
}

impl ReplaceMany for str {
    open spec fn source(&self) -> Seq<char> {
        self@
    }

    fn replace_many(&self, replacements: &[(&str, &str)]) -> (r: String) {
        let v = to_chars(self);
        let out = replace_many_chars(&v, replacements);
        from_chars(&out)
    }
}

/// `s` after the replacements, applied one after the other.
pub fn replace_many_chars(s: &Vec<char>, replacements: &[(&str, &str)]) -> (r: Vec<char>)
    ensures
        r@ == replace_many_spec(s@, pair_views(replacements@)),
{
    let ghost pairs = pair_views(replacements@);
    let mut cur: Vec<char> = slice_of(s, 0, s.len());
    assert(cur@ =~= s@);
    let mut i: usize = 0;
    assert(pairs.subrange(0, pairs.len() as int) =~= pairs);
    while i < replacements.len()
        invariant
            pairs == pair_views(replacements@),
            i <= replacements.len(),
            replace_many_spec(cur@, pairs.subrange(i as int, pairs.len() as int))
                == replace_many_spec(s@, pairs),
        decreases replacements.len() - i,
    {
        let from = to_chars(replacements[i].0);
        let to = to_chars(replacements[i].1);
        assert(pairs.subrange(i as int, pairs.len() as int).drop_first() =~= pairs.subrange(
            i + 1,
            pairs.len() as int,
        ));
        cur = replace_chars(&cur, &from, &to);
        i += 1;
    }
    cur
}

/// The fixed substitutions of the normalizer, in the order in which they are
/// applied: punctuation to keywords, category labels to one form, known
/// misspellings to the right word.
pub open spec fn substitution_table() -> Seq<(&'static str, &'static str)> {
    seq![
        (";", " OR"),
        (",", " AND"),
        ("CONCURRENT COURSES", "CONCURRENT"),
        ("RECOMMENDED PREPARATIONS", "RECOMMENDED PREPARATION"),
        ("PRERQUISITE", "PREREQUISITE"),
        ("PREREQUISTE", "PREREQUISITE"),
        ("PREQUISITE", "PREREQUISITE"),
        ("PREREQ ", "PREREQUISITE "),
    ]
}

/// The normal form of a text fragment: upper case, the fixed substitutions
/// made, whitespace collapsed.
pub open spec fn normalize_spec(s: Seq<char>) -> Seq<char> {
    trim_all_spec(replace_many_spec(upper(s), pair_views(substitution_table())))
}

/// The normal form of a text fragment.
pub fn normalize_chars(s: &Vec<char>) -> (r: Vec<char>)
    ensures
        r@ == normalize_spec(s@),
{
    let table: Vec<(&str, &str)> = vec![
        (";", " OR"),
        (",", " AND"),
        ("CONCURRENT COURSES", "CONCURRENT"),
        ("RECOMMENDED PREPARATIONS", "RECOMMENDED PREPARATION"),
        ("PRERQUISITE", "PREREQUISITE"),
        ("PREREQUISTE", "PREREQUISITE"),
        ("PREQUISITE", "PREREQUISITE"),
        ("PREREQ ", "PREREQUISITE "),
    ];
    assert(table@ =~= substitution_table());
    let up = to_upper(s);
    let replaced = replace_many_chars(&up, table.as_slice());
    trim_all_chars(&replaced)
}

/// The normal form of a text fragment.
pub fn normalize(s: &str) -> (r: String)
    ensures
        r@ == normalize_spec(s@),
{
    let v = to_chars(s);
    let n = normalize_chars(&v);
    from_chars(&n)
}

/// What is left of `s` without its leading whitespace does not begin with
/// whitespace.
pub proof fn lemma_trim_start_head(s: Seq<char>)
    ensures
        trim_start(s).len() > 0 ==> !char_is_whitespace(trim_start(s)[0]),
    decreases s.len(),
{
    if s.len() > 0 && char_is_whitespace(s[0]) {
        lemma_trim_start_head(s.drop_first());
    }
}

/// What is left of `s` without its trailing whitespace is a prefix of `s`
/// that does not end with whitespace.
pub proof fn lemma_trim_end_tail(s: Seq<char>)
    ensures
        trim_end(s).len() <= s.len(),
        trim_end(s) == s.subrange(0, trim_end(s).len() as int),
        trim_end(s).len() > 0 ==> !char_is_whitespace(trim_end(s).last()),
    decreases s.len(),
{
    if s.len() > 0 && char_is_whitespace(s.last()) {
        lemma_trim_end_tail(s.drop_last());
        assert(s.drop_last().subrange(0, trim_end(s).len() as int) =~= s.subrange(
            0,
            trim_end(s).len() as int,
        ));
    } else {
        assert(s.subrange(0, s.len() as int) =~= s);
    }
}

/// Trimmed text neither begins nor ends with whitespace.
pub proof fn lemma_trim_ends(s: Seq<char>)
    ensures
        trim(s).len() > 0 ==> !char_is_whitespace(trim(s)[0]) && !char_is_whitespace(
            trim(s).last(),
        ),
{
    lemma_trim_start_head(s);
    lemma_trim_end_tail(trim_start(s));
}

/// Text that neither begins nor ends with whitespace is its own trimmed
/// form.
pub proof fn lemma_trim_fixed(t: Seq<char>)
    requires
        t.len() > 0 ==> !char_is_whitespace(t[0]) && !char_is_whitespace(t.last()),
    ensures
        trim(t) == t,
{
}

/// Collapsing the spaces of text that begins with another character than a
/// space keeps that first character.
pub proof fn lemma_collapse_head(t: Seq<char>)
    requires
        t.len() > 0,
        t[0] != ' ',
    ensures
        collapse_spaces(t).len() > 0,
        collapse_spaces(t)[0] == t[0],
    decreases t.len(),
{
    if t.len() == 1 {
        assert(t.drop_last().len() == 0);
        assert(collapse_spaces(t.drop_last()).len() == 0);
    } else {
        lemma_collapse_head(t.drop_last());
    }
}

/// Text that was trimmed and had its spaces collapsed is its own trimmed
/// form.
pub proof fn lemma_trim_all_fixed(s: Seq<char>)
    ensures
        trim(trim_all_spec(s)) == trim_all_spec(s),
{
    let t = trim(s);
    lemma_trim_ends(s);
    if t.len() > 0 {
        lemma_collapse_head(t);
        assert(collapse_spaces(t).last() == t.last());
    } else {
        assert(collapse_spaces(t).len() == 0);
    }
    lemma_trim_fixed(collapse_spaces(t));
}

/// Whether `i` is the first position of `s` at which `pattern` occurs.
pub open spec fn is_first_infix(s: Seq<char>, pattern: Seq<char>, i: int) -> bool {
    has_infix_at(s, pattern, i) && forall|j: int| 0 <= j < i ==> !has_infix_at(s, pattern, j)
}

/// Whether `i` is the last position of `s` at which `pattern` occurs.
pub open spec fn is_last_infix(s: Seq<char>, pattern: Seq<char>, i: int) -> bool {
    has_infix_at(s, pattern, i) && forall|j: int| i < j ==> !has_infix_at(s, pattern, j)
}

/// The first position of `s` at which `pattern` occurs.
pub fn find_first(s: &Vec<char>, pattern: &Vec<char>) -> (r: Option<usize>)
    ensures
        match r {
            Some(i) => is_first_infix(s@, pattern@, i as int),
            None => !has_infix(s@, pattern@),
        },
{
    let mut i: usize = 0;
    while i <= s.len()
        invariant
            i <= s.len() + 1,
            forall|k: int| 0 <= k < i ==> !has_infix_at(s@, pattern@, k),
        decreases s.len() + 1 - i,
    {
        if matches_at(s, pattern, i) {
            return Some(i);
        }
        if i == s.len() {
            return None;
        }
        i += 1;
    }
    None
}

/// The last position of `s` at which `pattern` occurs.
pub fn find_last(s: &Vec<char>, pattern: &Vec<char>) -> (r: Option<usize>)
    ensures
        match r {
            Some(i) => is_last_infix(s@, pattern@, i as int),
            None => !has_infix(s@, pattern@),
        },
{
    let mut i: usize = s.len();
    loop
        invariant
            i <= s.len(),
            forall|k: int| i < k ==> !has_infix_at(s@, pattern@, k),
        decreases i,
    {
        if matches_at(s, pattern, i) {
            return Some(i);
        }
        if i == 0 {
            return None;
        }
        i -= 1;
    }
}

/// The pieces of `s` between the occurrences of `pattern`, the occurrences
/// taken from the left and not overlapping. Of an empty pattern nothing is
/// said but that `s` is the one piece.
pub open spec fn split_spec(s: Seq<char>, pattern: Seq<char>) -> Seq<Seq<char>>
    decreases s.len(),
{
    if pattern.len() == 0 || s.len() == 0 {
        seq![s]
    } else if has_prefix(s, pattern) {
        seq![Seq::<char>::empty()] + split_spec(
            s.subrange(pattern.len() as int, s.len() as int),
            pattern,
        )
    } else {
        let rest = split_spec(s.drop_first(), pattern);
        seq![seq![s[0]] + rest[0]] + rest.drop_first()
    }
}

/// A text has at least one piece.
pub proof fn lemma_split_nonempty(s: Seq<char>, pattern: Seq<char>)
    ensures
        split_spec(s, pattern).len() >= 1,
    decreases s.len(),
{
    if pattern.len() == 0 || s.len() == 0 {
    } else if has_prefix(s, pattern) {
        lemma_split_nonempty(s.subrange(pattern.len() as int, s.len() as int), pattern);
    } else {
        lemma_split_nonempty(s.drop_first(), pattern);
    }
}

/// The character sequences that `pieces` hold.
pub open spec fn piece_views(pieces: Seq<Vec<char>>) -> Seq<Seq<char>> {
    Seq::new(pieces.len(), |i: int| pieces[i]@)
}

/// The pieces `done`, then the piece that begins with `current` and goes on
/// with the first of `rest`, then the others of `rest`.
pub open spec fn glue(done: Seq<Seq<char>>, current: Seq<char>, rest: Seq<Seq<char>>) -> Seq<
    Seq<char>,
> {
    done + seq![current + rest[0]] + rest.drop_first()
}

/// The pieces of `s` between the occurrences of `pattern`.
pub fn split_chars(s: &Vec<char>, pattern: &Vec<char>) -> (r: Vec<Vec<char>>)
    requires
        pattern.len() > 0,
    ensures
        piece_views(r@) == split_spec(s@, pattern@),
{
    let n: usize = s.len();
    let mut done: Vec<Vec<char>> = Vec::new();
    let mut current: Vec<char> = Vec::new();
    let mut i: usize = 0;
    proof {
        assert(s@.subrange(0, n as int) =~= s@);
        lemma_split_nonempty(s@, pattern@);
        let whole = split_spec(s@, pattern@);
        assert(glue(piece_views(done@), current@, whole) =~= whole);
    }
    while i < n
        invariant
            n == s.len(),
            i <= n,
            pattern.len() > 0,
            glue(
                piece_views(done@),
                current@,
                split_spec(s@.subrange(i as int, n as int), pattern@),
            ) == split_spec(s@, pattern@),
        decreases n - i,
    {
        let ghost rest = s@.subrange(i as int, n as int);
        let ghost before = piece_views(done@);
        let ghost word = current@;
        if matches_at(s, pattern, i) {
            proof {
                assert(rest.subrange(0, pattern@.len() as int) =~= s@.subrange(
                    i as int,
                    i + pattern@.len(),
                ));
                let next = s@.subrange(i + pattern@.len(), n as int);
                assert(rest.subrange(pattern@.len() as int, rest.len() as int) =~= next);
                lemma_split_nonempty(next, pattern@);
            }
            done.push(current);
            current = Vec::new();
            i += pattern.len();
            proof {
                let next = s@.subrange(i as int, n as int);
                let pieces = split_spec(next, pattern@);
                let whole = seq![Seq::<char>::empty()] + pieces;
                assert(piece_views(done@) =~= before.push(word));
                assert(split_spec(rest, pattern@) == whole);
                assert(whole.drop_first() =~= pieces);
                assert(current@ + pieces[0] =~= pieces[0]);
                assert(word + whole[0] =~= word);
                assert(glue(piece_views(done@), current@, pieces) =~= before.push(word) + pieces);
                assert(glue(before, word, whole) =~= before.push(word) + pieces);
            }
        } else {
            proof {
                if has_prefix(rest, pattern@) {
                    assert(rest.subrange(0, pattern@.len() as int) =~= s@.subrange(
                        i as int,
                        i + pattern@.len(),
                    ));
                }
                let next = s@.subrange(i + 1, n as int);
                assert(rest.drop_first() =~= next);
                lemma_split_nonempty(next, pattern@);
            }
            current.push(s[i]);
            i += 1;
            proof {
                let next = s@.subrange(i as int, n as int);
                let pieces = split_spec(next, pattern@);
                assert(!has_prefix(rest, pattern@));
                assert(rest.drop_first() == next);
                let whole = seq![seq![rest[0]] + pieces[0]] + pieces.drop_first();
                assert(split_spec(rest, pattern@) == whole);
                assert(whole[0] == seq![rest[0]] + pieces[0]);
                assert(whole.drop_first() =~= pieces.drop_first());
                assert(current@ + pieces[0] =~= word + whole[0]);
                assert(glue(piece_views(done@), current@, pieces) == glue(before, word, whole));
            }
        }
    }
    proof {
        assert(s@.subrange(n as int, n as int) =~= Seq::<char>::empty());
    }
    let ghost before = piece_views(done@);
    let ghost word = current@;
    done.push(current);
    proof {
        assert(piece_views(done@) =~= before.push(word));
        assert(before.push(word) =~= glue(before, word, seq![Seq::<char>::empty()]));
    }
    done
}

/// The parts in order, with `separator` between each two.
pub open spec fn join(parts: Seq<Seq<char>>, separator: Seq<char>) -> Seq<char>
    decreases parts.len(),
{
    if parts.len() == 0 {
        Seq::empty()
    } else if parts.len() == 1 {
        parts[0]
    } else {
        join(parts.drop_last(), separator) + separator + parts.last()
    }
}

/// The character sequences of `parts`.
pub open spec fn str_views(parts: Seq<&str>) -> Seq<Seq<char>> {
    Seq::new(parts.len(), |i: int| parts[i]@)
}

/// The texts of `parts` in order, with `separator` between each two.
pub fn join_strs(parts: &Vec<&str>, separator: &str) -> (r: Vec<char>)
    ensures
        r@ == join(str_views(parts@), separator@),
{
    let ghost views = str_views(parts@);
    let mut r: Vec<char> = Vec::new();
    let mut i: usize = 0;
    assert(views.subrange(0, 0) =~= Seq::<Seq<char>>::empty());
    while i < parts.len()
        invariant
            i <= parts.len(),
            views == str_views(parts@),
            r@ == join(views.subrange(0, i as int), separator@),
        decreases parts.len() - i,
    {
        let ghost before = views.subrange(0, i as int);
        let ghost joined = r@;
        assert(views.subrange(0, i + 1).drop_last() =~= before);
        assert(views.subrange(0, i + 1).last() == parts@[i as int]@);
        if i > 0 {
            append_chars(&mut r, &to_chars(separator));
        }
        append_chars(&mut r, &to_chars(parts[i]));
        i += 1;
        assert(r@ =~= join(views.subrange(0, i as int), separator@)) by {
            if i == 1 {
                assert(joined =~= Seq::<char>::empty());
            }
        }
    }
    assert(views.subrange(0, parts.len() as int) =~= views);
    r
}

} // verus!
