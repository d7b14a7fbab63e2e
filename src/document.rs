use vstd::prelude::*;
use crate::syntax::{ErrorKind, ParseError, EntryItem, LogEntry, LogFile, LogFileView, fail};
use crate::lexer::{ByteClass, run_end, skip_class, in_class, lemma_run_end, lemma_run_end_at};
use crate::line::{spec_log_entry, spec_log_struct, log_entry, log_struct};

verus! {

/// `entry*` at `i`: entry lines one right after another, as long as they
/// parse. The result holds the entries and the cursor after the last one.
pub open spec fn spec_entries(s: Seq<u8>, i: int) -> (Seq<Seq<EntryItem>>, int)
    decreases s.len() - i,
{
    match spec_log_entry(s, i) {
        Ok((entry, k)) => if i < k <= s.len() {
            let (rest, e) = spec_entries(s, k);
            (seq![entry] + rest, e)
        } else {
            (seq![], i)
        },
        Err(_) => (seq![], i),
    }
}

/// `file := WS* header WS* entry* WS* EOF` over the whole buffer.
pub open spec fn spec_log_file(s: Seq<u8>) -> Result<LogFileView, ParseError> {
    let h = run_end(s, 0, ByteClass::Space);
    match spec_log_struct(s, h) {
        Err(_) => Err(fail(h, ErrorKind::MissingHeader)),
        Ok((schema, k)) => {
            let b = run_end(s, k, ByteClass::Space);
            let (entries, e) = spec_entries(s, b);
            let z = run_end(s, e, ByteClass::Space);
            if z == s.len() {
                Ok(LogFileView { schema, entries })
            } else {
                Err(fail(z, ErrorKind::TrailingGarbage))
            }
        },
    }
}

/// Parses a whole document: optional whitespace, the header line, optional
/// whitespace, any number of entry lines, optional whitespace, and then the
/// end of the buffer.
pub fn log_file(input: &[u8]) -> (r: Result<LogFile, ParseError>)
    ensures
        match r {
            Ok(file) => spec_log_file(input@) == Ok::<LogFileView, ParseError>(file@),
            Err(e) => spec_log_file(input@) == Err::<LogFileView, ParseError>(e),
        },
{
    let h = skip_class(input, 0, ByteClass::Space);
    let (header, k) = match log_struct(input, h) {
        Ok(found) => found,
        Err(_) => {
            return Err(ParseError { offset: h, kind: ErrorKind::MissingHeader });
        },
    };
    let b = skip_class(input, k, ByteClass::Space);
    let ghost target = spec_entries(input@, b as int);
    let mut entries: Vec<LogEntry> = Vec::new();
    let mut e: usize = b;
    proof {
        assert(entries@.map_values(|x: LogEntry| x@) =~= Seq::<Seq<EntryItem>>::empty());
    }
    loop
        invariant
            b <= e <= input@.len(),
            entries@.map_values(|x: LogEntry| x@) + spec_entries(input@, e as int).0 == target.0,
            spec_entries(input@, e as int).1 == target.1,
        ensures
            spec_entries(input@, e as int) == (Seq::<Seq<EntryItem>>::empty(), e as int),
        decreases input@.len() - e,
    {
        match log_entry(input, e) {
            Ok((entry, next)) => {
                proof {
                    let rest = spec_entries(input@, next as int).0;
                    assert(entries@.push(entry).map_values(|x: LogEntry| x@) + rest
                        =~= entries@.map_values(|x: LogEntry| x@) + (seq![entry@] + rest));
                }
                entries.push(entry);
                e = next;
            },
            Err(_) => {
                break;
            },
        }
    }
    proof {
        let m = entries@.map_values(|x: LogEntry| x@);
        assert(m + Seq::<Seq<EntryItem>>::empty() =~= m);
    }
    let z = skip_class(input, e, ByteClass::Space);
    if z == input.len() {
        let file = LogFile { log_struct: header, log_entries: entries };
        proof {
            assert(file@ == LogFileView { schema: header@, entries: target.0 });
        }
        Ok(file)
    } else {
        Err(ParseError { offset: z, kind: ErrorKind::TrailingGarbage })
    }
}

/// A buffer that is empty or holds only whitespace has no header: it fails
/// with `MissingHeader` at its end.
pub proof fn law_blank_input_has_no_header(s: Seq<u8>)
    requires
        forall|j: int| 0 <= j < s.len() ==> in_class(ByteClass::Space, #[trigger] s[j]),
    ensures
        spec_log_file(s) == Err::<LogFileView, ParseError>(fail(s.len() as int, ErrorKind::MissingHeader)),
{
    lemma_run_end_at(s, 0, s.len() as int, ByteClass::Space);
}

/// The entry lines that start at `i` end inside the buffer.
proof fn lemma_entries_bounds(s: Seq<u8>, i: int)
    requires
        0 <= i <= s.len(),
    ensures
        i <= spec_entries(s, i).1 <= s.len(),
    decreases s.len() - i,
{
    if let Ok((_, k)) = spec_log_entry(s, i) {
        if i < k <= s.len() {
            lemma_entries_bounds(s, k);
        }
    }
}

/// Once a header has been read, anything but whitespace after the last
/// entry line makes the document fail with `TrailingGarbage`, reported at
/// the first byte after that entry that is not whitespace.
pub proof fn law_garbage_after_entries_is_trailing(s: Seq<u8>)
    requires
        spec_log_struct(s, run_end(s, 0, ByteClass::Space)) is Ok,
        ({
            let k = spec_log_struct(s, run_end(s, 0, ByteClass::Space))->Ok_0.1;
            let e = spec_entries(s, run_end(s, k, ByteClass::Space)).1;
            0 <= k <= s.len()
                && exists|j: int| e <= j < s.len() && !in_class(ByteClass::Space, #[trigger] s[j])
        }),
    ensures
        ({
            let k = spec_log_struct(s, run_end(s, 0, ByteClass::Space))->Ok_0.1;
            let e = spec_entries(s, run_end(s, k, ByteClass::Space)).1;
            let z = run_end(s, e, ByteClass::Space);
            &&& e <= z < s.len()
            &&& !in_class(ByteClass::Space, s[z])
            &&& spec_log_file(s) == Err::<LogFileView, ParseError>(fail(z, ErrorKind::TrailingGarbage))
        }),
{
    let k = spec_log_struct(s, run_end(s, 0, ByteClass::Space))->Ok_0.1;
    let b = run_end(s, k, ByteClass::Space);
    lemma_run_end(s, k, ByteClass::Space);
    lemma_entries_bounds(s, b);
    let e = spec_entries(s, b).1;
    lemma_run_end(s, e, ByteClass::Space);
    let j = choose|j: int| e <= j < s.len() && !in_class(ByteClass::Space, #[trigger] s[j]);
    let z = run_end(s, e, ByteClass::Space);
    if z >= s.len() {
        assert(in_class(ByteClass::Space, s[j]));
    }
}

} // verus!
