//! Course identifiers such as `MATH 140H`: a department code, a number and
//! an optional one-letter suffix.

use vstd::prelude::*;
use crate::error::BulletinError;
use crate::text::{char_is_alphabetic, from_chars, is_alphabetic, slice_of, to_chars};

verus! {

/// What a course identifier holds, as mathematical values.
pub struct CourseKey {
    pub code: Seq<char>,
    pub number: u16,
    pub suffix: Option<char>,
}

/// A course identifier.
#[derive(Debug)]
pub struct CourseIdentifier {
    /// The department prefix, `MATH`.
    pub code: String,
    /// The course number, `140`.
    pub number: u16,
    /// The suffix letter, `H`.
    pub suffix: Option<char>,
}

impl View for CourseIdentifier {
    type V = CourseKey;

    open spec fn view(&self) -> CourseKey {
        CourseKey { code: self.code@, number: self.number, suffix: self.suffix }
    }
}

/// Whether `c` parts the code from the number: a space or a non-breaking
/// space.
pub open spec fn is_separator(c: char) -> bool {
    c == ' ' || c == '\u{A0}'
}

/// The position of the first separator of `s`, or the length of `s` where it
/// has none.
pub open spec fn first_separator(s: Seq<char>) -> int
    decreases s.len(),
{
    if s.len() == 0 || is_separator(s[0]) {
        0
    } else {
        1 + first_separator(s.drop_first())
    }
}

/// Whether `c` is one of the ten ASCII digits.
pub open spec fn is_digit(c: char) -> bool {
    '0' <= c && c <= '9'
}

/// Whether `d` holds ASCII digits only.
pub open spec fn all_digits(d: Seq<char>) -> bool {
    forall|i: int| 0 <= i < d.len() ==> is_digit(#[trigger] d[i])
}

/// The number that the decimal digits `d` write.
pub open spec fn digits_value(d: Seq<char>) -> nat
    decreases d.len(),
{
    if d.len() == 0 {
        0
    } else {
        (digits_value(d.drop_last()) * 10 + (d.last() as nat - '0' as nat)) as nat
    }
}

/// The digits of `t`: `t` itself, or what follows its leading plus sign.
pub open spec fn unsigned_digits(t: Seq<char>) -> Seq<char> {
    if t.len() > 0 && t[0] == '+' {
        t.drop_first()
    } else {
        t
    }
}

/// The 16-bit number that `t` writes in decimal: an optional plus sign, then
/// one digit or more, the value at most 65535.
pub open spec fn parse_number(t: Seq<char>) -> Option<u16> {
    let d = unsigned_digits(t);
    if d.len() > 0 && all_digits(d) && digits_value(d) <= 65535 {
        Some(digits_value(d) as u16)
    } else {
        None
    }
}

/// The identifier that `s` writes, given whether its last character is a
/// letter. The code is what stands before the first separator. Of what
/// stands after it, a last character that is a letter is the suffix, and the
/// rest is the number.
pub open spec fn parse_parts(s: Seq<char>, last_is_letter: bool) -> Option<CourseKey> {
    let k = first_separator(s);
    if k + 1 >= s.len() {
        None
    } else {
        let code = s.subrange(0, k);
        let rest = s.subrange(k + 1, s.len() as int);
        if last_is_letter {
            match parse_number(rest.drop_last()) {
                Some(n) => Some(CourseKey { code, number: n, suffix: Some(rest.last()) }),
                None => None,
            }
        } else {
            match parse_number(rest) {
                Some(n) => Some(CourseKey { code, number: n, suffix: None }),
                None => None,
            }
        }
    }
}

/// Whether something stands after the first separator of `s` and ends with
/// an alphabetic character.
pub open spec fn ends_with_letter(s: Seq<char>) -> bool {
    first_separator(s) + 1 < s.len() && char_is_alphabetic(
        s.subrange(first_separator(s) + 1, s.len() as int).last(),
    )
}

/// The identifier that `s` writes: a last alphabetic character after the
/// separator is its suffix.
pub open spec fn parse_identifier(s: Seq<char>) -> Option<CourseKey> {
    parse_parts(s, ends_with_letter(s))
}

/// The ASCII digit of a number below ten.
pub open spec fn digit_char(d: nat) -> char {
    (d + 48) as char
}

/// The decimal digits of `n`, without leading zeros.
pub open spec fn digits_of(n: nat) -> Seq<char>
    decreases n,
{
    if n < 10 {
        seq![digit_char(n)]
    } else {
        digits_of(n / 10).push(digit_char(n % 10))
    }
}

/// The suffix as text: one character or none.
pub open spec fn suffix_text(suffix: Option<char>) -> Seq<char> {
    match suffix {
        Some(c) => seq![c],
        None => Seq::empty(),
    }
}

/// The canonical text of an identifier: the code, a space, the number, the
/// suffix.
pub open spec fn format_identifier(k: CourseKey) -> Seq<char> {
    k.code + seq![' '] + digits_of(k.number as nat) + suffix_text(k.suffix)
}

/// A prefix of a digit sequence writes no greater number than the whole.
pub proof fn lemma_digits_value_prefix(d: Seq<char>, i: int)
    requires
        all_digits(d),
        0 <= i <= d.len(),
    ensures
        digits_value(d.subrange(0, i)) <= digits_value(d),
    decreases d.len(),
{
    if i == d.len() {
        assert(d.subrange(0, i) =~= d);
    } else {
        assert(is_digit(d[d.len() - 1]));
        assert(d.drop_last().subrange(0, i) =~= d.subrange(0, i));
        lemma_digits_value_prefix(d.drop_last(), i);
    }
}

/// The position of the first separator of `s`, or its length.
pub fn find_separator(s: &Vec<char>) -> (k: usize)
    ensures
        k == first_separator(s@),
        k <= s.len(),
{
    let n: usize = s.len();
    let mut i: usize = 0;
    assert(s@.subrange(0, n as int) =~= s@);
    while i < n && !(s[i] == ' ' || s[i] == '\u{A0}')
        invariant
            n == s.len(),
            i <= n,
            first_separator(s@) == i + first_separator(s@.subrange(i as int, n as int)),
        decreases n - i,
    {
        assert(s@.subrange(i as int, n as int).drop_first() =~= s@.subrange(i + 1, n as int));
        i += 1;
    }
    i
}

/// The 16-bit number that the characters of `s` from `from` up to `to` write.
pub fn parse_number_chars(s: &Vec<char>, from: usize, to: usize) -> (r: Option<u16>)
    requires
        from <= to <= s.len(),
    ensures
        r == parse_number(s@.subrange(from as int, to as int)),
{
    let ghost t = s@.subrange(from as int, to as int);
    let start: usize = if from < to && s[from] == '+' {
        from + 1
    } else {
        from
    };
    let ghost d = s@.subrange(start as int, to as int);
    assert(d =~= unsigned_digits(t));
    if start == to {
        return None;
    }
    let mut i: usize = start;
    while i < to
        invariant
            start <= i <= to <= s.len(),
            from <= start,
            d == s@.subrange(start as int, to as int),
            d == unsigned_digits(s@.subrange(from as int, to as int)),
            d.len() > 0,
            forall|j: int| 0 <= j < i - start ==> is_digit(#[trigger] d[j]),
        decreases to - i,
    {
        let c = s[i];
        if !('0' <= c && c <= '9') {
            assert(!is_digit(d[i - start]));
            return None;
        }
        i += 1;
    }
    assert(all_digits(d));
    let mut acc: u32 = 0;
    i = start;
    assert(d.subrange(0, 0) =~= Seq::<char>::empty());
    while i < to
        invariant
            start <= i <= to <= s.len(),
            from <= start,
            d == s@.subrange(start as int, to as int),
            d == unsigned_digits(s@.subrange(from as int, to as int)),
            d.len() > 0,
            all_digits(d),
            acc == digits_value(d.subrange(0, i - start)),
            acc <= 65535,
        decreases to - i,
    {
        let c = s[i];
        assert(is_digit(d[i - start]));
        assert(d.subrange(0, i + 1 - start).drop_last() =~= d.subrange(0, i - start));
        let digit: u32 = (c as u32) - 48;
        let next: u32 = acc * 10 + digit;
        if next > 65535 {
            proof {
                lemma_digits_value_prefix(d, i + 1 - start);
            }
            return None;
        }
        acc = next;
        i += 1;
    }
    assert(d.subrange(0, to - start) =~= d);
    Some(acc as u16)
}

/// Appends the decimal digits of `n` to `v`.
pub fn push_digits(v: &mut Vec<char>, n: u16)
    ensures
        final(v)@ == old(v)@ + digits_of(n as nat),
    decreases n,
{
    if n >= 10 {
        push_digits(v, n / 10);
    }
    v.push(((n % 10) as u8 + 48u8) as char);
    assert(v@ =~= old(v)@ + digits_of(n as nat));
}

impl CourseIdentifier {
    /// Reads an identifier. Fails exactly where the text has no separator,
    /// nothing after it, or no 16-bit number there.
    pub fn try_from(value: &str) -> (r: Result<CourseIdentifier, BulletinError>)
        ensures
            match parse_identifier(value@) {
                Some(k) => r is Ok && r->Ok_0@ == k,
                None => r == Err::<CourseIdentifier, BulletinError>(
                    BulletinError::InvalidIdentifier,
                ),
            },
    {
        let v = to_chars(value);
        CourseIdentifier::from_chars(&v)
    }

    /// Reads an identifier from characters.
    pub fn from_chars(value: &Vec<char>) -> (r: Result<CourseIdentifier, BulletinError>)
        ensures
            match parse_identifier(value@) {
                Some(k) => r is Ok && r->Ok_0@ == k,
                None => r == Err::<CourseIdentifier, BulletinError>(
                    BulletinError::InvalidIdentifier,
                ),
            },
    {
        let n: usize = value.len();
        let last_is_letter = n > 0 && is_alphabetic(value[n - 1]);
        proof {
            lemma_first_separator_bounds(value@);
            let k = first_separator(value@);
            if k + 1 < n {
                assert(value@.subrange(k + 1, n as int).last() == value@[n - 1]);
            }
        }
        CourseIdentifier::read(value, last_is_letter)
    }

    /// Reads an identifier from characters, told whether the last of them is
    /// a letter. Fails exactly where the text has no separator, nothing
    /// after it, or no 16-bit number there.
    pub fn read(value: &Vec<char>, last_is_letter: bool) -> (r: Result<
        CourseIdentifier,
        BulletinError,
    >)
        ensures
            match parse_parts(value@, last_is_letter) {
                Some(k) => r is Ok && r->Ok_0@ == k,
                None => r == Err::<CourseIdentifier, BulletinError>(
                    BulletinError::InvalidIdentifier,
                ),
            },
    {
        let n: usize = value.len();
        let k: usize = find_separator(value);
        if n == 0 || k >= n - 1 {
            return Err(BulletinError::InvalidIdentifier);
        }
        let ghost rest = value@.subrange(k + 1, n as int);
        let last = value[n - 1];
        assert(rest.last() == last);
        let end: usize = if last_is_letter {
            n - 1
        } else {
            n
        };
        assert(last_is_letter ==> rest.drop_last() =~= value@.subrange(k + 1, end as int));
        match parse_number_chars(value, k + 1, end) {
            Some(number) => {
                let code_chars = slice_of(value, 0, k);
                let code = from_chars(&code_chars);
                let suffix = if last_is_letter {
                    Some(last)
                } else {
                    None
                };
                Ok(CourseIdentifier { code, number, suffix })
            },
            None => Err(BulletinError::InvalidIdentifier),
        }
    }

    /// The canonical characters of the identifier.
    pub fn to_chars(&self) -> (r: Vec<char>)
        ensures
            r@ == format_identifier(self@),
    {
        let mut r = to_chars(self.code.as_str());
        r.push(' ');
        push_digits(&mut r, self.number);
        match self.suffix {
            Some(c) => {
                r.push(c);
            },
            None => {},
        }
        assert(r@ =~= format_identifier(self@));
        r
    }

    /// The canonical text of the identifier, `MATH 140H`.
    pub fn to_string(&self) -> (r: String)
        ensures
            r@ == format_identifier(self@),
    {
        let v = self.to_chars();
        from_chars(&v)
    }

    /// Whether the two identifiers have the same code, number and suffix.
    pub fn same_as(&self, other: &CourseIdentifier) -> (r: bool)
        ensures
            r == (self@ == other@),
    {
        let r = self.code == other.code && self.number == other.number && self.suffix
            == other.suffix;
        assert(r == (self@ == other@)) by {
            if self@ == other@ {
                assert(self@.code == other@.code);
            }
        }
        r
    }
}

impl Clone for CourseIdentifier {
    fn clone(&self) -> (r: CourseIdentifier)
        ensures
            r@ == self@,
    {
        CourseIdentifier { code: self.code.clone(), number: self.number, suffix: self.suffix }
    }
}

/// Whether `d` writes a number in the shortest way: digits only, at least
/// one, and no zero in front of another digit.
pub open spec fn shortest_digits(d: Seq<char>) -> bool {
    d.len() > 0 && all_digits(d) && (d.len() > 1 ==> d[0] != '0')
}

/// The part of `s` that writes the number: what follows the first separator,
/// without a last alphabetic character.
pub open spec fn number_text(s: Seq<char>) -> Seq<char> {
    let rest = s.subrange(first_separator(s) + 1, s.len() as int);
    if char_is_alphabetic(rest.last()) {
        rest.drop_last()
    } else {
        rest
    }
}

/// Whether `s` is written as identifiers are printed: the separator is a
/// plain space and the number is in its shortest form.
pub open spec fn is_canonical(s: Seq<char>) -> bool {
    first_separator(s) + 1 < s.len() && s[first_separator(s)] == ' ' && shortest_digits(
        number_text(s),
    )
}

/// Digits that start with a digit other than zero write a positive number.
pub proof fn lemma_digits_value_positive(d: Seq<char>)
    requires
        d.len() > 0,
        all_digits(d),
        d[0] != '0',
    ensures
        digits_value(d) >= 1,
    decreases d.len(),
{
    assert(is_digit(d[0]));
    assert(is_digit(d.last()));
    if d.len() == 1 {
        assert(d.drop_last().len() == 0);
        assert(digits_value(d.drop_last()) == 0);
    } else {
        lemma_digits_value_positive(d.drop_last());
    }
}

/// Writing the number that shortest digits write gives the digits back.
pub proof fn lemma_digits_round_trip(d: Seq<char>)
    requires
        shortest_digits(d),
    ensures
        digits_of(digits_value(d)) == d,
    decreases d.len(),
{
    let p = d.drop_last();
    let x = (d.last() as nat - '0' as nat) as nat;
    assert(is_digit(d.last()));
    assert(digit_char(x) == d.last());
    if d.len() == 1 {
        assert(p.len() == 0);
        assert(digits_value(p) == 0);
        assert(digits_of(x) =~= d);
    } else {
        assert(p[0] == d[0]);
        lemma_digits_value_positive(p);
        lemma_digits_round_trip(p);
        let v = digits_value(p) * 10 + x;
        assert(v / 10 == digits_value(p) && v % 10 == x) by (nonlinear_arith)
            requires
                v == digits_value(p) * 10 + x,
                x < 10,
        ;
        assert(digits_of(v) =~= d);
    }
}

/// Reading an identifier and printing it gives the text back, where the text
/// is written as identifiers are printed. (A text with a non-breaking space,
/// a plus sign or a leading zero is read, and printed differently.)
pub proof fn lemma_parse_then_format(s: Seq<char>)
    requires
        parse_identifier(s) is Some,
        is_canonical(s),
    ensures
        format_identifier(parse_identifier(s)->Some_0) == s,
{
    let k = first_separator(s);
    lemma_first_separator_bounds(s);
    let rest = s.subrange(k + 1, s.len() as int);
    let d = number_text(s);
    assert(unsigned_digits(d) == d) by {
        assert(is_digit(d[0]));
    }
    lemma_digits_round_trip(d);
    let key = parse_identifier(s)->Some_0;
    assert(digits_of(key.number as nat) == d);
    assert(key.code == s.subrange(0, k));
    assert(d + suffix_text(key.suffix) =~= rest);
    assert(s.subrange(0, k) + seq![' '] + rest =~= s);
    assert(format_identifier(key) =~= s.subrange(0, k) + seq![' '] + (d + suffix_text(key.suffix)));
}

/// The first separator of `s` lies within `s` or at its end.
pub proof fn lemma_first_separator_bounds(s: Seq<char>)
    ensures
        0 <= first_separator(s) <= s.len(),
    decreases s.len(),
{
    if !(s.len() == 0 || is_separator(s[0])) {
        lemma_first_separator_bounds(s.drop_first());
    }
}

/// No separator stands before the first separator, and one stands at it.
pub proof fn lemma_first_separator_is_first(s: Seq<char>)
    ensures
        0 <= first_separator(s) <= s.len(),
        forall|i: int| 0 <= i < first_separator(s) ==> !is_separator(#[trigger] s[i]),
        first_separator(s) < s.len() ==> is_separator(s[first_separator(s)]),
    decreases s.len(),
{
    if !(s.len() == 0 || is_separator(s[0])) {
        lemma_first_separator_is_first(s.drop_first());
        assert forall|i: int| 0 <= i < first_separator(s) implies !is_separator(
            #[trigger] s[i],
        ) by {
            if i > 0 {
                assert(s[i] == s.drop_first()[i - 1]);
            }
        }
    }
}

/// A number is written with digits, and with nothing else but a plus sign
/// in front.
pub proof fn lemma_number_characters(t: Seq<char>, j: int)
    requires
        parse_number(t) is Some,
        0 <= j < t.len(),
    ensures
        is_digit(t[j]) || (j == 0 && t[j] == '+'),
{
    let d = unsigned_digits(t);
    if t[0] == '+' {
        if j > 0 {
            assert(is_digit(d[j - 1]));
            assert(d[j - 1] == t[j]);
        }
    } else {
        assert(is_digit(d[j]));
    }
}

/// The digits of a number are in shortest form and write the number.
pub proof fn lemma_digits_of_shortest(n: nat)
    ensures
        shortest_digits(digits_of(n)),
        digits_value(digits_of(n)) == n,
    decreases n,
{
    let d = digits_of(n);
    if n < 10 {
        assert(d.drop_last().len() == 0);
        assert(digits_value(d.drop_last()) == 0);
    } else {
        lemma_digits_of_shortest(n / 10);
        let p = digits_of(n / 10);
        assert(d.drop_last() =~= p);
        assert(d[0] == p[0]);
        assert(p.len() == 1 ==> p[0] != '0') by {
            if p.len() == 1 {
                assert(p.drop_last().len() == 0);
                assert(digits_value(p.drop_last()) == 0);
            }
        }
        assert forall|i: int| 0 <= i < d.len() implies is_digit(#[trigger] d[i]) by {
            if i < p.len() {
                assert(d[i] == p[i]);
            }
        }
    }
}

/// The printed form of an identifier is read and printed as it stands. The
/// printed form is a code, a space, the digits of a 16-bit number, and
/// either nothing more or one character that is no digit, such as a letter.
/// Wherever such a text is read as an identifier at all, printing what was
/// read gives the text back.
pub proof fn lemma_printed_form_round_trip(code: Seq<char>, number: u16, suffix: Option<char>)
    requires
        suffix is Some ==> !is_digit(suffix->Some_0),
        parse_identifier(format_identifier(CourseKey { code, number, suffix })) is Some,
    ensures
        format_identifier(
            parse_identifier(format_identifier(CourseKey { code, number, suffix }))->Some_0,
        ) == format_identifier(CourseKey { code, number, suffix }),
{
    let s = format_identifier(CourseKey { code, number, suffix });
    let d = digits_of(number as nat);
    let k = first_separator(s);
    let at = code.len() as int;
    lemma_digits_of_shortest(number as nat);
    lemma_first_separator_is_first(s);
    assert(s[at] == ' ');
    assert(is_digit(d[0]));
    assert(s[at + 1] == d[0]);
    assert(k <= at);
    let rest = s.subrange(k + 1, s.len() as int);
    let letter = char_is_alphabetic(rest.last());
    let text = if letter {
        rest.drop_last()
    } else {
        rest
    };
    assert(parse_number(text) is Some);
    if k < at {
        // the space behind the code would stand inside the number
        let j = at - k - 1;
        assert(rest[j] == ' ');
        assert(rest[j + 1] == d[0]);
        assert(text[j] == ' ');
        lemma_number_characters(text, j);
    }
    assert(k == at);
    assert(rest =~= d + suffix_text(suffix));
    match suffix {
        Some(c) => {
            assert(rest.last() == c);
            assert(rest.drop_last() =~= d);
            if !letter {
                lemma_number_characters(rest, rest.len() - 1);
            }
            assert(number_text(s) == d);
        },
        None => {
            assert(rest == d);
            if letter {
                let shorter = d.drop_last();
                assert(unsigned_digits(shorter).len() > 0);
                assert(shorter.len() > 0);
                assert forall|i: int| 0 <= i < shorter.len() implies is_digit(
                    #[trigger] shorter[i],
                ) by {
                    assert(shorter[i] == d[i]);
                }
                assert(shorter[0] == d[0]);
                assert(shortest_digits(shorter));
            }
        },
    }
    assert(is_canonical(s));
    lemma_parse_then_format(s);
}

} // verus!
