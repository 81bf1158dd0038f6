//! Scanning of text, character by character.
use vstd::prelude::*;
use vstd::string::*;
use crate::result::device::{is_not_whitespace, is_whitespace};

verus! {

/// `String::push` of the standard library appends one character.
pub assume_specification[ String::push ](text: &mut String, ch: char)
    ensures
        final(text)@ == old(text)@.push(ch),
;

/// The characters of `text`, in a vector.
pub fn chars_of(text: &str) -> (chars: Vec<char>)
    ensures
        chars@ == text@,
{
    let mut chars: Vec<char> = Vec::new();
    for c in it: text.chars()
        invariant
            chars@ == it.seq().take(it.index() as int),
            it.seq() == text@,
    {
        chars.push(c);
    }
    chars
}

/// The characters `chars[from..to]`, as a string.
pub(crate) fn string_of(chars: &[char], from: usize, to: usize) -> (text: String)
    requires
        from <= to <= chars.len(),
    ensures
        text@ == chars@.subrange(from as int, to as int),
{
    let mut text = String::new();
    let mut i: usize = from;
    while i < to
        invariant
            from <= i <= to <= chars.len(),
            text@ == chars@.subrange(from as int, i as int),
        decreases to - i,
    {
        text.push(chars[i]);
        assert(chars@.subrange(from as int, i + 1) =~= chars@.subrange(from as int, i as int).push(
            chars@[i as int],
        ));
        i = i + 1;
    }
    text
}

/// The classes of characters that are scanned for.
#[derive(Debug, Clone, Copy, PartialEq, Eq, Structural)]
pub enum CharClass {
    /// Anything but white space.
    Token,
    /// A space or a tab.
    Blank,
    /// A space, a tab, a carriage return or a line feed.
    Multispace,
    /// A decimal digit.
    Digit,
    /// Anything but a line feed.
    Line,
    /// Anything but a colon.
    Host,
    /// A slash.
    Slash,
}

/// Whether `c` belongs to `class`.
pub open spec fn in_class(class: CharClass, c: char) -> bool {
    let u = c as u32;
    match class {
        CharClass::Token => !is_whitespace(c),
        CharClass::Blank => u == 0x20 || u == 0x09,
        CharClass::Multispace => u == 0x20 || u == 0x09 || u == 0x0d || u == 0x0a,
        CharClass::Digit => 0x30 <= u <= 0x39,
        CharClass::Line => u != 0x0a,
        CharClass::Host => u != 0x3a,
        CharClass::Slash => u == 0x2f,
    }
}

fn class_holds(class: CharClass, c: char) -> (r: bool)
    ensures
        r == in_class(class, c),
{
    let u = c as u32;
    match class {
        CharClass::Token => is_not_whitespace(c),
        CharClass::Blank => u == 0x20 || u == 0x09,
        CharClass::Multispace => u == 0x20 || u == 0x09 || u == 0x0d || u == 0x0a,
        CharClass::Digit => 0x30 <= u && u <= 0x39,
        CharClass::Line => u != 0x0a,
        CharClass::Host => u != 0x3a,
        CharClass::Slash => u == 0x2f,
    }
}

/// Where the longest run of characters of `class` that starts at `at`
/// ends; `at` itself where there is none.
pub open spec fn run_end(s: Seq<char>, at: int, class: CharClass) -> int
    decreases s.len() - at,
{
    if 0 <= at < s.len() && in_class(class, s[at]) {
        run_end(s, at + 1, class)
    } else {
        at
    }
}

/// Finds the end of the run of characters of `class` that starts at `at`.
pub(crate) fn scan(s: &[char], at: usize, class: CharClass) -> (end: usize)
    requires
        at <= s.len(),
    ensures
        end == run_end(s@, at as int, class),
        at <= end <= s.len(),
{
    let mut end: usize = at;
    while end < s.len() && class_holds(class, s[end])
        invariant
            at <= end <= s.len(),
            run_end(s@, at as int, class) == run_end(s@, end as int, class),
        decreases s.len() - end,
    {
        end = end + 1;
    }
    end
}

/// `prefix` stands in `s` at position `at`.
pub open spec fn has_prefix_at(s: Seq<char>, at: int, prefix: Seq<char>) -> bool {
    0 <= at && at + prefix.len() <= s.len() && s.subrange(at, at + prefix.len()) == prefix
}

/// Whether `prefix` stands in `s` at position `at`.
pub(crate) fn starts_at(s: &[char], at: usize, prefix: &[char]) -> (r: bool)
    requires
        at <= s.len(),
    ensures
        r == has_prefix_at(s@, at as int, prefix@),
{
    if prefix.len() > s.len() - at {
        return false;
    }
    let mut i: usize = 0;
    while i < prefix.len()
        invariant
            i <= prefix.len(),
            at + prefix.len() <= s.len(),
            forall|j: int| 0 <= j < i ==> s@[at + j] == prefix@[j],
        decreases prefix.len() - i,
    {
        if s[at + i] != prefix[i] {
            assert(s@.subrange(at as int, at + prefix@.len())[i as int] != prefix@[i as int]);
            return false;
        }
        i = i + 1;
    }
    assert(s@.subrange(at as int, at + prefix@.len()) =~= prefix@);
    true
}

/// Every character of a run belongs to the class of the run.
pub proof fn lemma_run_members(s: Seq<char>, at: int, class: CharClass)
    requires
        0 <= at <= s.len(),
    ensures
        at <= run_end(s, at, class) <= s.len(),
        forall|i: int| at <= i < run_end(s, at, class) ==> in_class(class, #[trigger] s[i]),
    decreases s.len() - at,
{
    if at < s.len() && in_class(class, s[at]) {
        lemma_run_members(s, at + 1, class);
    }
}

/// The number that `digits` spell in decimal.
pub open spec fn decimal_value(digits: Seq<char>) -> nat
    decreases digits.len(),
{
    if digits.len() == 0 {
        0
    } else {
        (decimal_value(digits.drop_last()) * 10 + (digits.last() as u32 - 0x30)) as nat
    }
}

proof fn lemma_decimal_grows(digits: Seq<char>, k: int)
    requires
        0 <= k <= digits.len(),
        forall|i: int| 0 <= i < digits.len() ==> in_class(CharClass::Digit, #[trigger] digits[i]),
    ensures
        decimal_value(digits.take(k)) <= decimal_value(digits),
    decreases digits.len(),
{
    if k == digits.len() {
        assert(digits.take(k) =~= digits);
    } else {
        let shorter = digits.drop_last();
        lemma_decimal_grows(shorter, k);
        assert(shorter.take(k) =~= digits.take(k));
    }
}

/// Reads the decimal number that `s[from..to]` spells, if it fits in 64
/// bits.
pub(crate) fn read_decimal(s: &[char], from: usize, to: usize) -> (r: Option<u64>)
    requires
        from <= to <= s.len(),
        forall|i: int| from <= i < to ==> in_class(CharClass::Digit, #[trigger] s@[i]),
    ensures
        match r {
            Some(v) => decimal_value(s@.subrange(from as int, to as int)) == v,
            None => decimal_value(s@.subrange(from as int, to as int)) > u64::MAX,
        },
{
    let ghost digits = s@.subrange(from as int, to as int);
    let mut value: u64 = 0;
    let mut i: usize = from;
    assert(s@.subrange(from as int, from as int) =~= Seq::<char>::empty());
    while i < to
        invariant
            from <= i <= to <= s.len(),
            digits == s@.subrange(from as int, to as int),
            forall|j: int| from <= j < to ==> in_class(CharClass::Digit, #[trigger] s@[j]),
            value == decimal_value(s@.subrange(from as int, i as int)),
        decreases to - i,
    {
        let digit: u32 = s[i] as u32 - 0x30;
        let wide: u128 = value as u128 * 10 + digit as u128;
        proof {
            let longer = s@.subrange(from as int, i + 1);
            assert(longer.drop_last() =~= s@.subrange(from as int, i as int));
            assert(longer.last() == s@[i as int]);
            assert(decimal_value(longer) == wide);
            assert(digits.take(i + 1 - from) =~= longer);
            lemma_decimal_grows(digits, i + 1 - from);
        }
        if wide > u64::MAX as u128 {
            return None;
        }
        value = wide as u64;
        i = i + 1;
    }
    Some(value)
}

} // verus!
