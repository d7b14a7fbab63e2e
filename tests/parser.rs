use lum::{identifier, typename, number, struct_item, entry_item, log_struct, log_entry, log_file};
use lum::{ErrorCategory, ErrorKind, ParseError, Span};

fn ident(input: &[u8]) -> Result<&[u8], ParseError> {
    identifier(input, 0).map(|(span, _)| span.text(input))
}

fn tname(input: &[u8]) -> Result<&[u8], ParseError> {
    typename(input, 0).map(|(span, _)| span.text(input))
}

fn num(input: &[u8]) -> Result<i32, ParseError> {
    number(input, 0).map(|(value, _)| value)
}

fn err(offset: usize, kind: ErrorKind) -> ParseError {
    ParseError { offset, kind }
}

#[test]
fn test_identifier() {
    assert_eq!(ident(b"date0-xyz "), Ok(&b"date0-xyz"[..]));
    assert_eq!(ident(b"a."), Ok(&b"a"[..]));
    assert_eq!(ident(b"abc-_-_."), Ok(&b"abc-_-_"[..]));
    assert_eq!(ident(b"asdF"), Ok(&b"asd"[..]));
    assert!(ident(b"Asdf").is_err());
    assert!(ident(b"_asdf").is_err());
}

#[test]
fn test_number() {
    assert_eq!(num(b"123"), Ok(123));
    assert_eq!(num(b"+123"), Ok(123));
    assert_eq!(num(b"-123"), Ok(-123));
    assert_eq!(num(b"1234567890"), Ok(1234567890));
}

#[test]
fn test_type() {
    assert_eq!(tname(b"Num"), Ok(&b"Num"[..]));
    assert_eq!(tname(b"Str"), Ok(&b"Str"[..]));
    assert_eq!(tname(b"FixNum"), Ok(&b"Fix"[..]));
    assert!(tname(b"asdf").is_err());
}

#[test]
fn test_entry_item() {
    let input = b"chapter=12";
    let (item, next) = entry_item(input, 0).unwrap();
    assert_eq!(item.field.text(input), b"chapter");
    assert_eq!(item.value, 12);
    assert_eq!(next, input.len());
}

#[test]
fn test_struct_item() {
    let input = b"chapter=Num";
    let (item, next) = struct_item(input, 0).unwrap();
    assert_eq!(item.field.text(input), b"chapter");
    assert_eq!(item.typename.text(input), b"Num");
    assert_eq!(next, input.len());
}

#[test]
fn test_log_entry() {
    let input = b"abc=123  xyz=-42 a_b_c-1=0   \n\n\nasdf";
    let (entry, next) = log_entry(input, 0).unwrap();
    let got: Vec<(&[u8], i32)> = entry
        .entry_items
        .iter()
        .map(|item| (item.field.text(input), item.value))
        .collect();
    let want: Vec<(&[u8], i32)> = vec![(b"abc", 123), (b"xyz", -42), (b"a_b_c-1", 0)];
    assert_eq!(got, want);
    assert_eq!(&input[next..], b"asdf");
}

#[test]
fn test_log_struct() {
    let input = b"abc=Num  xyz=Str a_b_c-1=Bool  \n\n\nasdf";
    let (header, next) = log_struct(input, 0).unwrap();
    let got: Vec<(&[u8], &[u8])> = header
        .struct_items
        .iter()
        .map(|item| (item.field.text(input), item.typename.text(input)))
        .collect();
    let want: Vec<(&[u8], &[u8])> = vec![(b"abc", b"Num"), (b"xyz", b"Str"), (b"a_b_c-1", b"Bool")];
    assert_eq!(got, want);
    assert_eq!(&input[next..], b"asdf");
}

fn schema_of<'a>(input: &'a [u8], file: &lum::LogFile) -> Vec<(&'a [u8], &'a [u8])> {
    file.log_struct
        .struct_items
        .iter()
        .map(|item| (item.field.text(input), item.typename.text(input)))
        .collect()
}

fn entries_of<'a>(input: &'a [u8], file: &lum::LogFile) -> Vec<Vec<(&'a [u8], i32)>> {
    file.log_entries
        .iter()
        .map(|entry| entry.entry_items.iter().map(|item| (item.field.text(input), item.value)).collect())
        .collect()
}

#[test]
fn test_log_file() {
    let input = b"abc=Num xyz=Num\n\nabc=1 xyz=2\nabc=3 xyz=4\n";
    let file = log_file(input).unwrap();
    let schema: Vec<(&[u8], &[u8])> = vec![(b"abc", b"Num"), (b"xyz", b"Num")];
    assert_eq!(schema_of(input, &file), schema);
    let entries: Vec<Vec<(&[u8], i32)>> = vec![vec![(b"abc", 1), (b"xyz", 2)], vec![(b"abc", 3), (b"xyz", 4)]];
    assert_eq!(entries_of(input, &file), entries);
}

#[test]
fn test_parser() {
    let input = b"\n\ndate=Num level=Str line=Num\n\n\
        date=20170101 level=1 line=10\n\
        date=20170102 level=-2\tline=+11  \r\n\
        \n\
        date=20170103 line=12\n\n  \t\n";
    let file = log_file(input).unwrap();
    assert_eq!(file.log_struct.struct_items.len(), 3);
    assert_eq!(file.log_entries.len(), 3);
    assert_eq!(file.log_entries[1].entry_items[2].value, 11);
    assert_eq!(file.log_entries[2].entry_items.len(), 2);
}

#[test]
fn typename_stops_at_next_uppercase() {
    let input = b"FixNum";
    let (span, next) = typename(input, 0).unwrap();
    assert_eq!(span, Span { start: 0, end: 3 });
    assert_eq!(&input[next..], b"Num");
}

#[test]
fn identifier_followed_by_other_bytes() {
    for tail in [&b" "[..], b"=", b".", b"A", b"\n", b""] {
        let mut input = b"a_b-c9".to_vec();
        input.extend_from_slice(tail);
        assert_eq!(identifier(&input, 0), Ok((Span { start: 0, end: 6 }, 6)));
    }
}

#[test]
fn identifier_at_an_offset() {
    let input = b"  name=1";
    assert_eq!(identifier(input, 2), Ok((Span { start: 2, end: 6 }, 6)));
    assert_eq!(identifier(input, 8), Err(err(8, ErrorKind::ExpectedLowercaseStart)));
}

#[test]
fn identifier_rejects_bad_starts() {
    assert_eq!(ident(b"Asdf"), Err(err(0, ErrorKind::ExpectedLowercaseStart)));
    assert_eq!(ident(b"_asdf"), Err(err(0, ErrorKind::ExpectedLowercaseStart)));
    assert_eq!(ident(b"9abc"), Err(err(0, ErrorKind::ExpectedLowercaseStart)));
    assert_eq!(ident(b""), Err(err(0, ErrorKind::ExpectedLowercaseStart)));
}

#[test]
fn typename_rejects_lowercase_start() {
    assert_eq!(tname(b"num"), Err(err(0, ErrorKind::ExpectedUppercaseStart)));
    assert_eq!(tname(b""), Err(err(0, ErrorKind::ExpectedUppercaseStart)));
}

#[test]
fn number_round_trips_extremes() {
    for n in [i32::MIN, -1, 0, 1, 42, i32::MAX] {
        let text = n.to_string();
        assert_eq!(number(text.as_bytes(), 0), Ok((n, text.len())));
        if n >= 0 {
            let plus = format!("+{}", n);
            assert_eq!(number(plus.as_bytes(), 0), Ok((n, plus.len())));
        }
    }
    assert_eq!(num(b"-0"), Ok(0));
    assert_eq!(num(b"007"), Ok(7));
}

#[test]
fn number_stops_at_non_digit() {
    assert_eq!(number(b"-42 x", 0), Ok((-42, 3)));
    assert_eq!(number(b"12a", 0), Ok((12, 2)));
}

#[test]
fn number_needs_a_digit() {
    assert_eq!(num(b"+"), Err(err(1, ErrorKind::ExpectedDigit)));
    assert_eq!(num(b"-x"), Err(err(1, ErrorKind::ExpectedDigit)));
    assert_eq!(num(b"x"), Err(err(0, ErrorKind::ExpectedDigit)));
    assert_eq!(num(b""), Err(err(0, ErrorKind::ExpectedDigit)));
}

#[test]
fn number_out_of_range() {
    assert_eq!(num(b"2147483648"), Err(err(0, ErrorKind::IntegerOutOfRange)));
    assert_eq!(num(b"-2147483649"), Err(err(0, ErrorKind::IntegerOutOfRange)));
    assert_eq!(num(b"99999999999999999999999"), Err(err(0, ErrorKind::IntegerOutOfRange)));
    assert_eq!(num(b"-2147483648"), Ok(i32::MIN));
}

#[test]
fn item_missing_equals() {
    assert_eq!(struct_item(b"abc:Num", 0), Err(err(3, ErrorKind::ExpectedEquals)));
    assert_eq!(entry_item(b"abc", 0), Err(err(3, ErrorKind::ExpectedEquals)));
}

#[test]
fn item_errors_propagate() {
    assert_eq!(struct_item(b"abc=num", 0), Err(err(4, ErrorKind::ExpectedUppercaseStart)));
    assert_eq!(entry_item(b"abc=+", 0), Err(err(5, ErrorKind::ExpectedDigit)));
}

#[test]
fn header_line_scenario() {
    let input = b"abc=Num  xyz=Str a_b_c-1=Bool  \n\n\n";
    let (header, next) = log_struct(input, 0).unwrap();
    assert_eq!(next, input.len());
    let got: Vec<(&[u8], &[u8])> = header
        .struct_items
        .iter()
        .map(|item| (item.field.text(input), item.typename.text(input)))
        .collect();
    let want: Vec<(&[u8], &[u8])> = vec![(b"abc", b"Num"), (b"xyz", b"Str"), (b"a_b_c-1", b"Bool")];
    assert_eq!(got, want);
}

#[test]
fn line_errors() {
    assert_eq!(log_struct(b"\nabc=Num\n", 0).map(|(_, n)| n), Err(err(0, ErrorKind::EmptyHeaderLine)));
    assert_eq!(log_entry(b"  abc=1\n", 0).map(|(_, n)| n), Err(err(0, ErrorKind::EmptyEntryLine)));
    assert_eq!(log_struct(b"abc=Num", 0).map(|(_, n)| n), Err(err(7, ErrorKind::MissingLineTerminator)));
    assert_eq!(log_entry(b"abc=1  x\n", 0).map(|(_, n)| n), Err(err(7, ErrorKind::MissingLineTerminator)));
    assert_eq!(log_struct(b"abc=Num xyz\n", 0).map(|(_, n)| n), Err(err(8, ErrorKind::MissingLineTerminator)));
    assert_eq!(log_struct(b"abc=9\n", 0).map(|(_, n)| n), Err(err(4, ErrorKind::ExpectedUppercaseStart)));
}

#[test]
fn empty_and_blank_documents_have_no_header() {
    assert_eq!(log_file(b""), Err(err(0, ErrorKind::MissingHeader)));
    assert_eq!(log_file(b" \t\r\n\n "), Err(err(6, ErrorKind::MissingHeader)));
    assert_eq!(log_file(b"  Abc=Num\n"), Err(err(2, ErrorKind::MissingHeader)));
}

#[test]
fn trailing_garbage_fails() {
    assert_eq!(log_file(b"abc=Num\nabc=1\nasdf"), Err(err(14, ErrorKind::TrailingGarbage)));
    assert_eq!(log_file(b"abc=Num\n\n  #x\n"), Err(err(11, ErrorKind::TrailingGarbage)));
    assert_eq!(log_file(b"abc=Num\nabc=1\n  abc=2\n"), Err(err(16, ErrorKind::TrailingGarbage)));
}

#[test]
fn header_only_document() {
    let input = b"  \nabc=Str\n\n \t";
    let file = log_file(input).unwrap();
    let schema: Vec<(&[u8], &[u8])> = vec![(b"abc", b"Str")];
    assert_eq!(schema_of(input, &file), schema);
    assert!(file.log_entries.is_empty());
}

#[test]
fn duplicate_fields_are_kept_in_order() {
    let input = b"a=Num a=Num\na=2 a=1\r\n";
    let file = log_file(input).unwrap();
    assert_eq!(file.log_struct.struct_items.len(), 2);
    let entries: Vec<Vec<(&[u8], i32)>> = vec![vec![(b"a", 2), (b"a", 1)]];
    assert_eq!(entries_of(input, &file), entries);
}

#[test]
fn error_categories() {
    assert_eq!(ErrorKind::ExpectedLowercaseStart.category(), ErrorCategory::Lexical);
    assert_eq!(ErrorKind::ExpectedUppercaseStart.category(), ErrorCategory::Lexical);
    assert_eq!(ErrorKind::ExpectedDigit.category(), ErrorCategory::Lexical);
    assert_eq!(ErrorKind::IntegerOutOfRange.category(), ErrorCategory::Lexical);
    assert_eq!(ErrorKind::ExpectedEquals.category(), ErrorCategory::Line);
    assert_eq!(ErrorKind::EmptyHeaderLine.category(), ErrorCategory::Line);
    assert_eq!(ErrorKind::EmptyEntryLine.category(), ErrorCategory::Line);
    assert_eq!(ErrorKind::MissingLineTerminator.category(), ErrorCategory::Line);
    assert_eq!(ErrorKind::MissingHeader.category(), ErrorCategory::Document);
    assert_eq!(ErrorKind::TrailingGarbage.category(), ErrorCategory::Document);
}
