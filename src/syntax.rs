use vstd::prelude::*;

verus! {

/// A run of bytes `start..end` in the parsed buffer.
#[derive(Clone, Copy, Debug, PartialEq, Eq, Structural)]
pub struct Span {
    pub start: usize,
    pub end: usize,
}

impl Span {
    /// The bytes that this span covers in `input`.
    pub fn text<'a>(&self, input: &'a [u8]) -> (r: &'a [u8])
        requires
            self.start <= self.end <= input@.len(),
        ensures
            r@ == input@.subrange(self.start as int, self.end as int),
    {
        vstd::slice::slice_subrange(input, self.start, self.end)
    }
}

/// What a failed production expected to find.
#[derive(Clone, Copy, Debug, PartialEq, Eq, Structural)]
pub enum ErrorKind {
    /// An identifier must begin with a lowercase ASCII letter.
    ExpectedLowercaseStart,
    /// A type name must begin with an uppercase ASCII letter.
    ExpectedUppercaseStart,
    /// An integer needs at least one decimal digit after its optional sign.
    ExpectedDigit,
    /// The integer's value does not fit in a signed 32-bit integer.
    IntegerOutOfRange,
    /// A field name must be followed by `=`.
    ExpectedEquals,
    /// A header line holds no `name=Type` pair.
    EmptyHeaderLine,
    /// An entry line holds no `name=value` pair.
    EmptyEntryLine,
    /// A line's pairs are not followed by a line break.
    MissingLineTerminator,
    /// The first non-whitespace content is not a header line.
    MissingHeader,
    /// Something other than whitespace follows the last entry.
    TrailingGarbage,
}

/// The three families of syntax failure.
#[derive(Clone, Copy, Debug, PartialEq, Eq, Structural)]
pub enum ErrorCategory {
    /// A token began with the wrong kind of byte, or its value is out of range.
    Lexical,
    /// A line is not shaped as pairs followed by a line break.
    Line,
    /// The document as a whole is not a header followed by entries.
    Document,
}

impl ErrorKind {
    /// The family that this kind of failure belongs to.
    pub fn category(&self) -> (r: ErrorCategory)
        ensures
            r == (match *self {
                ErrorKind::ExpectedLowercaseStart | ErrorKind::ExpectedUppercaseStart
                | ErrorKind::ExpectedDigit | ErrorKind::IntegerOutOfRange => ErrorCategory::Lexical,
                ErrorKind::ExpectedEquals | ErrorKind::EmptyHeaderLine | ErrorKind::EmptyEntryLine
                | ErrorKind::MissingLineTerminator => ErrorCategory::Line,
                ErrorKind::MissingHeader | ErrorKind::TrailingGarbage => ErrorCategory::Document,
            }),
    {
        match self {
            ErrorKind::ExpectedLowercaseStart | ErrorKind::ExpectedUppercaseStart
            | ErrorKind::ExpectedDigit | ErrorKind::IntegerOutOfRange => ErrorCategory::Lexical,
            ErrorKind::ExpectedEquals | ErrorKind::EmptyHeaderLine | ErrorKind::EmptyEntryLine
            | ErrorKind::MissingLineTerminator => ErrorCategory::Line,
            ErrorKind::MissingHeader | ErrorKind::TrailingGarbage => ErrorCategory::Document,
        }
    }
}

/// A syntax failure: the byte offset where it was found and what was expected.
#[derive(Clone, Copy, Debug, PartialEq, Eq, Structural)]
pub struct ParseError {
    pub offset: usize,
    pub kind: ErrorKind,
}

/// One schema field of a header line: `field=typename`.
#[derive(Clone, Copy, Debug, PartialEq, Eq, Structural)]
pub struct StructItem {
    pub field: Span,
    pub typename: Span,
}

/// One field of an entry line: `field=value`.
#[derive(Clone, Copy, Debug, PartialEq, Eq, Structural)]
pub struct EntryItem {
    pub field: Span,
    pub value: i32,
}

/// A header line: the schema, in the order it was declared.
#[derive(Debug, PartialEq, Eq)]
pub struct LogStruct {
    pub struct_items: Vec<StructItem>,
}

/// An entry line: its fields, in the order they were written.
#[derive(Debug, PartialEq, Eq)]
pub struct LogEntry {
    pub entry_items: Vec<EntryItem>,
}

/// A whole document: the header and every entry after it.
#[derive(Debug, PartialEq, Eq)]
pub struct LogFile {
    pub log_struct: LogStruct,
    pub log_entries: Vec<LogEntry>,
}

/// The mathematical value of a document.
pub ghost struct LogFileView {
    pub schema: Seq<StructItem>,
    pub entries: Seq<Seq<EntryItem>>,
}

impl View for Span {
    type V = Span;

    open spec fn view(&self) -> Span {
        *self
    }
}

impl View for StructItem {
    type V = StructItem;

    open spec fn view(&self) -> StructItem {
        *self
    }
}

impl View for EntryItem {
    type V = EntryItem;

    open spec fn view(&self) -> EntryItem {
        *self
    }
}

impl View for LogStruct {
    type V = Seq<StructItem>;

    open spec fn view(&self) -> Seq<StructItem> {
        self.struct_items@
    }
}

impl View for LogEntry {
    type V = Seq<EntryItem>;

    open spec fn view(&self) -> Seq<EntryItem> {
        self.entry_items@
    }
}

impl View for LogFile {
    type V = LogFileView;

    open spec fn view(&self) -> LogFileView {
        LogFileView {
            schema: self.log_struct@,
            entries: self.log_entries@.map_values(|e: LogEntry| e@),
        }
    }
}

/// The outcome of a production as its model: the value's view and the
/// cursor after it, or the same error.
pub open spec fn lift<T: View>(r: Result<(T, usize), ParseError>) -> Result<(T::V, int), ParseError> {
    match r {
        Ok((v, e)) => Ok((v@, e as int)),
        Err(err) => Err(err),
    }
}

/// The error that a production reports at `offset`.
pub open spec fn fail(offset: int, kind: ErrorKind) -> ParseError {
    ParseError { offset: offset as usize, kind }
}

} // verus!
