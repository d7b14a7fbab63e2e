use vstd::prelude::*;
use crate::syntax::{ErrorKind, ParseError, StructItem, EntryItem, LogStruct, LogEntry, fail, lift};
use crate::lexer::{
    ByteClass, run_end, lemma_run_end, skip_class, identifier, typename, number,
    spec_identifier, spec_typename, spec_number,
};

verus! {

/// `struct_item := identifier "=" typename` at `i`.
pub open spec fn spec_struct_item(s: Seq<u8>, i: int) -> Result<(StructItem, int), ParseError> {
    match spec_identifier(s, i) {
        Err(e) => Err(e),
        Ok((field, j)) => if 0 <= j < s.len() && s[j] == 61 {
            match spec_typename(s, j + 1) {
                Err(e) => Err(e),
                Ok((t, k)) => Ok((StructItem { field, typename: t }, k)),
            }
        } else {
            Err(fail(j, ErrorKind::ExpectedEquals))
        },
    }
}

/// `entry_item := identifier "=" integer` at `i`.
pub open spec fn spec_entry_item(s: Seq<u8>, i: int) -> Result<(EntryItem, int), ParseError> {
    match spec_identifier(s, i) {
        Err(e) => Err(e),
        Ok((field, j)) => if 0 <= j < s.len() && s[j] == 61 {
            match spec_number(s, j + 1) {
                Err(e) => Err(e),
                Ok((value, k)) => Ok((EntryItem { field, value }, k)),
            }
        } else {
            Err(fail(j, ErrorKind::ExpectedEquals))
        },
    }
}

/// After a pair that ends at `i`, the further pairs of the same line: each
/// one preceded by one or more spaces or tabs. The list ends before the
/// first gap that no pair follows; the result holds the pairs and the
/// cursor after the last of them.
pub open spec fn more_struct_items(s: Seq<u8>, i: int) -> (Seq<StructItem>, int)
    decreases s.len() - i,
{
    let j = run_end(s, i, ByteClass::HSpace);
    match spec_struct_item(s, j) {
        Ok((item, k)) => if i < j && i < k <= s.len() {
            let (rest, e) = more_struct_items(s, k);
            (seq![item] + rest, e)
        } else {
            (seq![], i)
        },
        Err(_) => (seq![], i),
    }
}

/// The entry-line counterpart of [`more_struct_items`].
pub open spec fn more_entry_items(s: Seq<u8>, i: int) -> (Seq<EntryItem>, int)
    decreases s.len() - i,
{
    let j = run_end(s, i, ByteClass::HSpace);
    match spec_entry_item(s, j) {
        Ok((item, k)) => if i < j && i < k <= s.len() {
            let (rest, e) = more_entry_items(s, k);
            (seq![item] + rest, e)
        } else {
            (seq![], i)
        },
        Err(_) => (seq![], i),
    }
}

/// The end of a line whose pairs end at `i`: optional spaces and tabs, then
/// one or more line breaks. The cursor after the breaks, or the error.
pub open spec fn spec_line_end(s: Seq<u8>, i: int) -> Result<int, ParseError> {
    let h = run_end(s, i, ByteClass::HSpace);
    let t = run_end(s, h, ByteClass::LineBreak);
    if t == h {
        Err(fail(h, ErrorKind::MissingLineTerminator))
    } else {
        Ok(t)
    }
}

/// `header := struct_item (HWS+ struct_item)* HWS* EOL+` at `i`.
pub open spec fn spec_log_struct(s: Seq<u8>, i: int) -> Result<(Seq<StructItem>, int), ParseError> {
    match spec_struct_item(s, i) {
        Err(e) => if e.kind == ErrorKind::ExpectedLowercaseStart {
            Err(fail(i, ErrorKind::EmptyHeaderLine))
        } else {
            Err(e)
        },
        Ok((first, k)) => {
            let (rest, e) = more_struct_items(s, k);
            match spec_line_end(s, e) {
                Err(err) => Err(err),
                Ok(t) => Ok((seq![first] + rest, t)),
            }
        },
    }
}

/// `entry := entry_item (HWS+ entry_item)* HWS* EOL+` at `i`.
pub open spec fn spec_log_entry(s: Seq<u8>, i: int) -> Result<(Seq<EntryItem>, int), ParseError> {
    match spec_entry_item(s, i) {
        Err(e) => if e.kind == ErrorKind::ExpectedLowercaseStart {
            Err(fail(i, ErrorKind::EmptyEntryLine))
        } else {
            Err(e)
        },
        Ok((first, k)) => {
            let (rest, e) = more_entry_items(s, k);
            match spec_line_end(s, e) {
                Err(err) => Err(err),
                Ok(t) => Ok((seq![first] + rest, t)),
            }
        },
    }
}

/// A successful identifier ends after its first byte, inside the buffer.
proof fn lemma_identifier_bounds(s: Seq<u8>, i: int)
    requires
        0 <= i <= s.len(),
    ensures
        spec_identifier(s, i) is Ok ==> {
            let j = spec_identifier(s, i)->Ok_0.1;
            i < j <= s.len()
        },
{
    if i < s.len() {
        lemma_run_end(s, i + 1, ByteClass::IdentTail);
    }
}

/// Scans `field=Type` at `pos`.
pub fn struct_item(input: &[u8], pos: usize) -> (r: Result<(StructItem, usize), ParseError>)
    requires
        pos <= input@.len(),
    ensures
        lift(r) == spec_struct_item(input@, pos as int),
        r is Ok ==> pos < r->Ok_0.1 <= input@.len(),
{
    proof {
        lemma_identifier_bounds(input@, pos as int);
    }
    let (field, j) = identifier(input, pos)?;
    if j < input.len() && input[j] == 61 {
        proof {
            if j + 1 < input@.len() {
                lemma_run_end(input@, j + 2, ByteClass::Lower);
            }
        }
        let (t, k) = typename(input, j + 1)?;
        Ok((StructItem { field, typename: t }, k))
    } else {
        Err(ParseError { offset: j, kind: ErrorKind::ExpectedEquals })
    }
}

/// Scans `field=integer` at `pos`.
pub fn entry_item(input: &[u8], pos: usize) -> (r: Result<(EntryItem, usize), ParseError>)
    requires
        pos <= input@.len(),
    ensures
        lift(r) == spec_entry_item(input@, pos as int),
        r is Ok ==> pos < r->Ok_0.1 <= input@.len(),
{
    proof {
        lemma_identifier_bounds(input@, pos as int);
    }
    let (field, j) = identifier(input, pos)?;
    if j < input.len() && input[j] == 61 {
        proof {
            let st = if j + 1 < input@.len() && (input@[j + 1] == 43 || input@[j + 1] == 45) {
                j + 2
            } else {
                j + 1
            };
            lemma_run_end(input@, st, ByteClass::Digit);
        }
        let (value, k) = number(input, j + 1)?;
        Ok((EntryItem { field, value }, k))
    } else {
        Err(ParseError { offset: j, kind: ErrorKind::ExpectedEquals })
    }
}

/// Scans the end of a line whose pairs end at `pos`: optional spaces and
/// tabs, then one or more line breaks, all of which it consumes.
fn line_end(input: &[u8], pos: usize) -> (r: Result<usize, ParseError>)
    requires
        pos <= input@.len(),
    ensures
        r is Ok <==> spec_line_end(input@, pos as int) is Ok,
        r is Ok ==> r->Ok_0 as int == spec_line_end(input@, pos as int)->Ok_0,
        r is Err ==> r->Err_0 == spec_line_end(input@, pos as int)->Err_0,
        r is Ok ==> pos < r->Ok_0 <= input@.len(),
{
    let h = skip_class(input, pos, ByteClass::HSpace);
    let t = skip_class(input, h, ByteClass::LineBreak);
    if t == h {
        Err(ParseError { offset: h, kind: ErrorKind::MissingLineTerminator })
    } else {
        Ok(t)
    }
}

/// Scans a header line at `pos`: one or more `field=Type` pairs separated by
/// spaces or tabs, then optional spaces and tabs, then one or more line
/// breaks. Blank lines right after the header belong to its terminator.
pub fn log_struct(input: &[u8], pos: usize) -> (r: Result<(LogStruct, usize), ParseError>)
    requires
        pos <= input@.len(),
    ensures
        lift(r) == spec_log_struct(input@, pos as int),
        r is Ok ==> pos < r->Ok_0.1 <= input@.len(),
{
    let (first, k0) = match struct_item(input, pos) {
        Ok(found) => found,
        Err(e) => {
            if e.kind == ErrorKind::ExpectedLowercaseStart {
                return Err(ParseError { offset: pos, kind: ErrorKind::EmptyHeaderLine });
            }
            return Err(e);
        },
    };
    let ghost target = more_struct_items(input@, k0 as int);
    let mut items: Vec<StructItem> = Vec::new();
    items.push(first);
    let mut k: usize = k0;
    proof {
        assert(items@ =~= seq![first]);
    }
    loop
        invariant
            pos < k <= input@.len(),
            items@ + more_struct_items(input@, k as int).0 == seq![first] + target.0,
            more_struct_items(input@, k as int).1 == target.1,
        ensures
            more_struct_items(input@, k as int) == (Seq::<StructItem>::empty(), k as int),
        decreases input@.len() - k,
    {
        let j = skip_class(input, k, ByteClass::HSpace);
        if j == k {
            break;
        }
        match struct_item(input, j) {
            Ok((item, next)) => {
                proof {
                    let rest = more_struct_items(input@, next as int).0;
                    assert(items@.push(item) + rest =~= items@ + (seq![item] + rest));
                }
                items.push(item);
                k = next;
            },
            Err(_) => {
                break;
            },
        }
    }
    proof {
        assert(items@ + Seq::<StructItem>::empty() =~= items@);
    }
    let t = line_end(input, k)?;
    Ok((LogStruct { struct_items: items }, t))
}

/// Scans an entry line at `pos`: one or more `field=integer` pairs separated
/// by spaces or tabs, then optional spaces and tabs, then one or more line
/// breaks. Blank lines after the entry belong to its terminator.
pub fn log_entry(input: &[u8], pos: usize) -> (r: Result<(LogEntry, usize), ParseError>)
    requires
        pos <= input@.len(),
    ensures
        lift(r) == spec_log_entry(input@, pos as int),
        r is Ok ==> pos < r->Ok_0.1 <= input@.len(),
{
    let (first, k0) = match entry_item(input, pos) {
        Ok(found) => found,
        Err(e) => {
            if e.kind == ErrorKind::ExpectedLowercaseStart {
                return Err(ParseError { offset: pos, kind: ErrorKind::EmptyEntryLine });
            }
            return Err(e);
        },
    };
    let ghost target = more_entry_items(input@, k0 as int);
    let mut items: Vec<EntryItem> = Vec::new();
    items.push(first);
    let mut k: usize = k0;
    proof {
        assert(items@ =~= seq![first]);
    }
    loop
        invariant
            pos < k <= input@.len(),
            items@ + more_entry_items(input@, k as int).0 == seq![first] + target.0,
            more_entry_items(input@, k as int).1 == target.1,
        ensures
            more_entry_items(input@, k as int) == (Seq::<EntryItem>::empty(), k as int),
        decreases input@.len() - k,
    {
        let j = skip_class(input, k, ByteClass::HSpace);
        if j == k {
            break;
        }
        match entry_item(input, j) {
            Ok((item, next)) => {
                proof {
                    let rest = more_entry_items(input@, next as int).0;
                    assert(items@.push(item) + rest =~= items@ + (seq![item] + rest));
                }
                items.push(item);
                k = next;
            },
            Err(_) => {
                break;
            },
        }
    }
    proof {
        assert(items@ + Seq::<EntryItem>::empty() =~= items@);
    }
    let t = line_end(input, k)?;
    Ok((LogEntry { entry_items: items }, t))
}

} // verus!
