use vstd::prelude::*;
use crate::syntax::{ErrorKind, ParseError, Span, fail, lift};

verus! {

/// The byte classes that the grammar scans runs of.
#[derive(Clone, Copy, Debug, PartialEq, Eq, Structural)]
pub enum ByteClass {
    /// What may follow an identifier's first letter: `[a-z0-9_-]`.
    IdentTail,
    /// `[a-z]`.
    Lower,
    /// `[0-9]`.
    Digit,
    /// Horizontal whitespace: space and tab.
    HSpace,
    /// Line-break bytes: `\n` and `\r`.
    LineBreak,
    /// Any whitespace: space, tab, `\n`, `\r`.
    Space,
}

/// An ASCII lowercase letter.
pub open spec fn is_lower(b: u8) -> bool {
    97 <= b <= 122
}

/// An ASCII uppercase letter.
pub open spec fn is_upper(b: u8) -> bool {
    65 <= b <= 90
}

/// An ASCII decimal digit.
pub open spec fn is_digit(b: u8) -> bool {
    48 <= b <= 57
}

/// A space or a tab.
pub open spec fn is_hspace(b: u8) -> bool {
    b == 32 || b == 9
}

/// `\n` or `\r`.
pub open spec fn is_line_break(b: u8) -> bool {
    b == 10 || b == 13
}

/// Whether byte `b` belongs to class `k`.
pub open spec fn in_class(k: ByteClass, b: u8) -> bool {
    match k {
        ByteClass::IdentTail => is_lower(b) || is_digit(b) || b == 45 || b == 95,
        ByteClass::Lower => is_lower(b),
        ByteClass::Digit => is_digit(b),
        ByteClass::HSpace => is_hspace(b),
        ByteClass::LineBreak => is_line_break(b),
        ByteClass::Space => is_hspace(b) || is_line_break(b),
    }
}

/// Where the longest run of bytes of class `k` that starts at `i` ends.
pub open spec fn run_end(s: Seq<u8>, i: int, k: ByteClass) -> int
    decreases s.len() - i,
{
    if 0 <= i < s.len() && in_class(k, s[i]) {
        run_end(s, i + 1, k)
    } else {
        i
    }
}

/// A run ends inside the buffer, covers bytes of its class only, and stops at
/// the end of the buffer or at the first byte outside the class.
pub proof fn lemma_run_end(s: Seq<u8>, i: int, k: ByteClass)
    requires
        0 <= i <= s.len(),
    ensures
        i <= run_end(s, i, k) <= s.len(),
        forall|j: int| i <= j < run_end(s, i, k) ==> in_class(k, #[trigger] s[j]),
        run_end(s, i, k) == s.len() || !in_class(k, s[run_end(s, i, k)]),
    decreases s.len() - i,
{
    if i < s.len() && in_class(k, s[i]) {
        lemma_run_end(s, i + 1, k);
    }
}

/// A run over bytes that all belong to the class reaches the first byte
/// that does not.
pub proof fn lemma_run_end_at(s: Seq<u8>, i: int, e: int, k: ByteClass)
    requires
        0 <= i <= e <= s.len(),
        forall|j: int| i <= j < e ==> in_class(k, #[trigger] s[j]),
        e == s.len() || !in_class(k, s[e]),
    ensures
        run_end(s, i, k) == e,
    decreases e - i,
{
    if i < e {
        lemma_run_end_at(s, i + 1, e, k);
    }
}

/// Tests whether byte `b` belongs to class `k`.
pub fn class_contains(k: ByteClass, b: u8) -> (r: bool)
    ensures
        r == in_class(k, b),
{
    match k {
        ByteClass::IdentTail => (97 <= b && b <= 122) || (48 <= b && b <= 57) || b == 45 || b == 95,
        ByteClass::Lower => 97 <= b && b <= 122,
        ByteClass::Digit => 48 <= b && b <= 57,
        ByteClass::HSpace => b == 32 || b == 9,
        ByteClass::LineBreak => b == 10 || b == 13,
        ByteClass::Space => b == 32 || b == 9 || b == 10 || b == 13,
    }
}

/// Advances past the longest run of bytes of class `k` at `pos`.
pub fn skip_class(input: &[u8], pos: usize, k: ByteClass) -> (r: usize)
    requires
        pos <= input@.len(),
    ensures
        r == run_end(input@, pos as int, k),
        pos <= r <= input@.len(),
{
    proof {
        lemma_run_end(input@, pos as int, k);
    }
    let mut i: usize = pos;
    while i < input.len() && class_contains(k, input[i])
        invariant
            pos <= i <= input@.len(),
            run_end(input@, i as int, k) == run_end(input@, pos as int, k),
        decreases input@.len() - i,
    {
        i = i + 1;
    }
    i
}

/// `identifier := [a-z] [a-z0-9_-]*` at `i`: its span, and the cursor after it.
pub open spec fn spec_identifier(s: Seq<u8>, i: int) -> Result<(Span, int), ParseError> {
    if 0 <= i < s.len() && is_lower(s[i]) {
        let e = run_end(s, i + 1, ByteClass::IdentTail);
        Ok((Span { start: i as usize, end: e as usize }, e))
    } else {
        Err(fail(i, ErrorKind::ExpectedLowercaseStart))
    }
}

/// `typename := [A-Z] [a-z]*` at `i`: its span, and the cursor after it.
pub open spec fn spec_typename(s: Seq<u8>, i: int) -> Result<(Span, int), ParseError> {
    if 0 <= i < s.len() && is_upper(s[i]) {
        let e = run_end(s, i + 1, ByteClass::Lower);
        Ok((Span { start: i as usize, end: e as usize }, e))
    } else {
        Err(fail(i, ErrorKind::ExpectedUppercaseStart))
    }
}

/// The number that a string of decimal digits writes.
pub open spec fn digits_value(d: Seq<u8>) -> int
    decreases d.len(),
{
    if d.len() == 0 {
        0
    } else {
        digits_value(d.drop_last()) * 10 + (d.last() - 48)
    }
}

/// Whether an integer at `i` opens with `+` or `-`.
pub open spec fn has_sign(s: Seq<u8>, i: int) -> bool {
    0 <= i < s.len() && (s[i] == 43 || s[i] == 45)
}

/// `integer := [+-]? [0-9]+` at `i`: its value, and the cursor after it.
/// A value outside the range of `i32` is an error, reported where the
/// integer begins.
pub open spec fn spec_number(s: Seq<u8>, i: int) -> Result<(i32, int), ParseError> {
    let start = if has_sign(s, i) { i + 1 } else { i };
    let end = run_end(s, start, ByteClass::Digit);
    let magnitude = digits_value(s.subrange(start, end));
    let v = if has_sign(s, i) && s[i] == 45 { -magnitude } else { magnitude };
    if end == start {
        Err(fail(start, ErrorKind::ExpectedDigit))
    } else if v < i32::MIN || v > i32::MAX {
        Err(fail(i, ErrorKind::IntegerOutOfRange))
    } else {
        Ok((v as i32, end))
    }
}

/// Scans an identifier at `pos`: a lowercase letter, then the longest run of
/// lowercase letters, digits, `-` and `_`.
pub fn identifier(input: &[u8], pos: usize) -> (r: Result<(Span, usize), ParseError>)
    requires
        pos <= input@.len(),
    ensures
        lift(r) == spec_identifier(input@, pos as int),
{
    if pos < input.len() && class_contains(ByteClass::Lower, input[pos]) {
        let e = skip_class(input, pos + 1, ByteClass::IdentTail);
        Ok((Span { start: pos, end: e }, e))
    } else {
        Err(ParseError { offset: pos, kind: ErrorKind::ExpectedLowercaseStart })
    }
}

/// Scans a type name at `pos`: an uppercase letter, then the longest run of
/// lowercase letters. It stops at the next uppercase letter, so `FixNum`
/// yields `Fix`.
pub fn typename(input: &[u8], pos: usize) -> (r: Result<(Span, usize), ParseError>)
    requires
        pos <= input@.len(),
    ensures
        lift(r) == spec_typename(input@, pos as int),
{
    if pos < input.len() && 65 <= input[pos] && input[pos] <= 90 {
        let e = skip_class(input, pos + 1, ByteClass::Lower);
        Ok((Span { start: pos, end: e }, e))
    } else {
        Err(ParseError { offset: pos, kind: ErrorKind::ExpectedUppercaseStart })
    }
}

/// Digit strings have a value of at least zero.
proof fn lemma_digits_nonneg(d: Seq<u8>)
    requires
        forall|j: int| 0 <= j < d.len() ==> is_digit(#[trigger] d[j]),
    ensures
        digits_value(d) >= 0,
    decreases d.len(),
{
    if d.len() > 0 {
        lemma_digits_nonneg(d.drop_last());
    }
}

/// Past this magnitude no `i32` can be written; the scan stops counting there.
const MAGNITUDE_CAP: u64 = 2147483649;

/// Scans a signed decimal integer at `pos`: an optional `+` or `-`, then one
/// or more digits, whose value must fit in an `i32`.
pub fn number(input: &[u8], pos: usize) -> (r: Result<(i32, usize), ParseError>)
    requires
        pos <= input@.len(),
    ensures
        lift(r) == spec_number(input@, pos as int),
{
    let ghost s = input@;
    let signed = pos < input.len() && (input[pos] == 43 || input[pos] == 45);
    let negative = signed && input[pos] == 45;
    let start: usize = if signed { pos + 1 } else { pos };
    let mut i: usize = start;
    let mut acc: u64 = 0;
    proof {
        lemma_run_end(s, start as int, ByteClass::Digit);
        assert(s.subrange(start as int, start as int) =~= Seq::<u8>::empty());
    }
    while i < input.len() && class_contains(ByteClass::Digit, input[i])
        invariant
            start <= i <= s.len(),
            s == input@,
            run_end(s, i as int, ByteClass::Digit) == run_end(s, start as int, ByteClass::Digit),
            forall|j: int| start <= j < i ==> is_digit(#[trigger] s[j]),
            acc <= MAGNITUDE_CAP,
            acc < MAGNITUDE_CAP ==> acc == digits_value(s.subrange(start as int, i as int)),
            acc == MAGNITUDE_CAP ==> digits_value(s.subrange(start as int, i as int)) >= MAGNITUDE_CAP,
        decreases s.len() - i,
    {
        let ghost prev = s.subrange(start as int, i as int);
        let ghost next = s.subrange(start as int, i as int + 1);
        proof {
            assert(next.drop_last() =~= prev);
            assert(next.last() == s[i as int]);
            lemma_digits_nonneg(prev);
        }
        if acc < MAGNITUDE_CAP {
            let grown = acc * 10 + (input[i] - 48) as u64;
            acc = if grown < MAGNITUDE_CAP { grown } else { MAGNITUDE_CAP };
        }
        i = i + 1;
    }
    if i == start {
        return Err(ParseError { offset: start, kind: ErrorKind::ExpectedDigit });
    }
    if negative {
        if acc > 2147483648 {
            Err(ParseError { offset: pos, kind: ErrorKind::IntegerOutOfRange })
        } else {
            Ok(((0 - acc as i64) as i32, i))
        }
    } else {
        if acc > 2147483647 {
            Err(ParseError { offset: pos, kind: ErrorKind::IntegerOutOfRange })
        } else {
            Ok((acc as i32, i))
        }
    }
}

/// An identifier written at the start of the buffer, and followed by the end
/// of the buffer or by a byte that cannot continue it, is scanned whole and
/// nothing more.
pub proof fn law_identifier_scans_whole_name(name: Seq<u8>, rest: Seq<u8>)
    requires
        name.len() >= 1,
        is_lower(name[0]),
        forall|j: int| 1 <= j < name.len() ==> in_class(ByteClass::IdentTail, #[trigger] name[j]),
        rest.len() == 0 || !in_class(ByteClass::IdentTail, rest[0]),
        name.len() + rest.len() <= usize::MAX,
    ensures
        spec_identifier(name + rest, 0) == Ok::<(Span, int), ParseError>(
            (Span { start: 0, end: name.len() as usize }, name.len() as int),
        ),
{
    let s = name + rest;
    assert forall|j: int| 1 <= j < name.len() implies in_class(ByteClass::IdentTail, #[trigger] s[j]) by {
        assert(s[j] == name[j]);
    }
    if rest.len() > 0 {
        assert(s[name.len() as int] == rest[0]);
    }
    lemma_run_end_at(s, 1, name.len() as int, ByteClass::IdentTail);
}

/// No identifier begins with an uppercase letter or an underscore.
pub proof fn law_identifier_needs_lowercase_start(s: Seq<u8>)
    requires
        s.len() >= 1,
        is_upper(s[0]) || s[0] == 95,
    ensures
        spec_identifier(s, 0) == Err::<(Span, int), ParseError>(fail(0, ErrorKind::ExpectedLowercaseStart)),
{
}

/// The decimal digits of `m`, most significant first, with no leading zero.
pub open spec fn decimal_digits(m: nat) -> Seq<u8>
    decreases m,
{
    if m < 10 {
        seq![(48 + m) as u8]
    } else {
        decimal_digits(m / 10).push((48 + m % 10) as u8)
    }
}

/// How `n` is written in decimal: a `-` for a negative value, a `+` for
/// another one when `plus` asks for it, then its digits.
pub open spec fn decimal_form(n: int, plus: bool) -> Seq<u8> {
    if n < 0 {
        seq![45u8] + decimal_digits((-n) as nat)
    } else if plus {
        seq![43u8] + decimal_digits(n as nat)
    } else {
        decimal_digits(n as nat)
    }
}

/// The decimal digits of `m` are digits, and they write `m`.
proof fn lemma_decimal_digits(m: nat)
    ensures
        decimal_digits(m).len() >= 1,
        decimal_digits(m).len() <= m + 1,
        forall|j: int| 0 <= j < decimal_digits(m).len() ==> is_digit(#[trigger] decimal_digits(m)[j]),
        digits_value(decimal_digits(m)) == m,
    decreases m,
{
    if m >= 10 {
        lemma_decimal_digits(m / 10);
        let d = decimal_digits(m);
        assert(d.drop_last() =~= decimal_digits(m / 10));
        assert(m == (m / 10) * 10 + m % 10);
        assert(d.last() == (48 + m % 10) as u8);
        assert(((48 + m % 10) as u8) as int == 48 + m % 10);
        assert(digits_value(d) == digits_value(decimal_digits(m / 10)) * 10 + (m % 10));
    } else {
        let d = decimal_digits(m);
        assert(d.drop_last() =~= Seq::<u8>::empty());
        assert(((48 + m) as u8) as int == 48 + m);
        assert(digits_value(Seq::<u8>::empty()) == 0);
        assert(digits_value(d) == m);
    }
}

/// Every `i32` written in decimal, with or without an explicit `+` on a
/// value that is not negative, is scanned back to itself, and the scan
/// consumes the whole text.
pub proof fn law_number_round_trip(n: i32, plus: bool)
    ensures
        spec_number(decimal_form(n as int, plus), 0) == Ok::<(i32, int), ParseError>(
            (n, decimal_form(n as int, plus).len() as int),
        ),
{
    let s = decimal_form(n as int, plus);
    let m: nat = if n < 0 { (-n) as nat } else { n as nat };
    let d = decimal_digits(m);
    lemma_decimal_digits(m);
    let start: int = if n < 0 || plus { 1 } else { 0 };
    assert(s.subrange(start, s.len() as int) =~= d);
    assert forall|j: int| start <= j < s.len() implies in_class(ByteClass::Digit, #[trigger] s[j]) by {
        assert(s[j] == d[j - start]);
    }
    assert(has_sign(s, 0) == (start == 1)) by {
        if start == 0 {
            assert(s[0] == d[0]);
        }
    }
    lemma_run_end_at(s, start, s.len() as int, ByteClass::Digit);
}

} // verus!
