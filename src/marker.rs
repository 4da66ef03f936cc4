use crate::decimal::{decimal, is_digit, lemma_decimal_digits, lemma_decimal_injective, push_decimal};
use vstd::prelude::*;

verus! {

/// The byte that ends every marker line.
pub const NEWLINE: u8 = 10;

/// The byte that separates the fields of a marker line.
pub const SPACE: u8 = 32;

/// The line `"<start_ns> <end_ns> <name>\n"` that records one closed frame.
pub open spec fn marker_line(start_ns: u64, end_ns: u64, name: Seq<u8>) -> Seq<u8> {
    decimal(start_ns as nat) + seq![SPACE] + decimal(end_ns as nat) + seq![SPACE] + name + seq![
        NEWLINE,
    ]
}

/// `"marker-"` in ASCII.
pub open spec fn file_prefix() -> Seq<u8> {
    seq![109u8, 97, 114, 107, 101, 114, 45]
}

/// `".txt"` in ASCII.
pub open spec fn file_suffix() -> Seq<u8> {
    seq![46u8, 116, 120, 116]
}

/// The name of the marker file of writer `tid` in process `pid`:
/// `marker-<pid>-<tid>.txt`, or `marker-<pid>.txt` where the writer has no
/// thread identifier.
pub open spec fn file_name(pid: u32, tid: Option<u64>) -> Seq<u8> {
    match tid {
        Some(t) => file_prefix() + decimal(pid as nat) + seq![45u8] + decimal(t as nat)
            + file_suffix(),
        None => file_prefix() + decimal(pid as nat) + file_suffix(),
    }
}

/// ASCII whitespace as a regular expression's `\s` knows it.
pub open spec fn is_space(c: u8) -> bool {
    c == 32 || c == 9 || c == 10 || c == 11 || c == 12 || c == 13
}

/// A span name that fits the marker format: it is not empty, does not start
/// with whitespace and holds no newline.
pub open spec fn is_valid_name(name: Seq<u8>) -> bool {
    &&& name.len() > 0
    &&& !is_space(name[0])
    &&& forall|i: int| 0 <= i < name.len() ==> name[i] != NEWLINE
}

/// The line is of the form `^\d+ \d+ \S.*\n$`: `a` and `b` are the two spaces.
pub open spec fn fields_at(line: Seq<u8>, a: int, b: int) -> bool {
    &&& 0 < a && a + 1 < b && b + 2 < line.len()
    &&& line[a] == SPACE && line[b] == SPACE
    &&& forall|i: int| 0 <= i < a ==> is_digit(#[trigger] line[i])
    &&& forall|i: int| a < i < b ==> is_digit(#[trigger] line[i])
    &&& !is_space(line[b + 1])
    &&& forall|i: int| b < i < line.len() - 1 ==> #[trigger] line[i] != NEWLINE
    &&& line.last() == NEWLINE
}

/// The line matches `^\d+ \d+ \S.*\n$`.
pub open spec fn matches_line_format(line: Seq<u8>) -> bool {
    exists|a: int, b: int| fields_at(line, a, b)
}

/// The content of a marker file after the given lines were appended to it,
/// in order.
pub open spec fn file_contents(lines: Seq<Seq<u8>>) -> Seq<u8>
    decreases lines.len(),
{
    if lines.len() == 0 {
        Seq::empty()
    } else {
        file_contents(lines.drop_last()) + lines.last()
    }
}

/// The number of newline bytes in `s`.
pub open spec fn count_newlines(s: Seq<u8>) -> nat
    decreases s.len(),
{
    if s.len() == 0 {
        0
    } else {
        count_newlines(s.drop_last()) + if s.last() == NEWLINE {
            1nat
        } else {
            0nat
        }
    }
}

/// Appends the bytes of `src` to `out`.
fn push_bytes(out: &mut Vec<u8>, src: &[u8])
    ensures
        final(out)@ == old(out)@ + src@,
{
    let ghost start = out@;
    let mut i: usize = 0;
    while i < src.len()
        invariant
            i <= src@.len(),
            out@ == start + src@.subrange(0, i as int),
        decreases src@.len() - i,
    {
        out.push(src[i]);
        i = i + 1;
        proof {
            assert(out@ =~= start + src@.subrange(0, i as int));
        }
    }
    proof {
        assert(src@.subrange(0, i as int) =~= src@);
    }
}

/// Formats the marker line `"<start_ns> <end_ns> <name>\n"`.
pub fn format_marker_line(start_ns: u64, end_ns: u64, name: &[u8]) -> (r: Vec<u8>)
    ensures
        r@ == marker_line(start_ns, end_ns, name@),
{
    let mut out: Vec<u8> = Vec::new();
    push_decimal(&mut out, start_ns);
    out.push(SPACE);
    push_decimal(&mut out, end_ns);
    out.push(SPACE);
    push_bytes(&mut out, name);
    out.push(NEWLINE);
    proof {
        assert(out@ =~= marker_line(start_ns, end_ns, name@));
    }
    out
}

/// The name of the marker file of writer `tid` in process `pid`.
pub fn marker_file_name(pid: u32, tid: Option<u64>) -> (r: Vec<u8>)
    ensures
        r@ == file_name(pid, tid),
{
    let mut out: Vec<u8> = Vec::new();
    out.push(109u8);
    out.push(97u8);
    out.push(114u8);
    out.push(107u8);
    out.push(101u8);
    out.push(114u8);
    out.push(45u8);
    push_decimal(&mut out, pid as u64);
    match tid {
        Some(t) => {
            out.push(45u8);
            push_decimal(&mut out, t);
        },
        None => {},
    }
    out.push(46u8);
    out.push(116u8);
    out.push(120u8);
    out.push(116u8);
    proof {
        assert(out@ =~= file_name(pid, tid));
    }
    out
}

/// Every marker line formatted from a valid name matches `^\d+ \d+ \S.*\n$`.
pub proof fn lemma_line_format(start_ns: u64, end_ns: u64, name: Seq<u8>)
    requires
        is_valid_name(name),
    ensures
        matches_line_format(marker_line(start_ns, end_ns, name)),
{
    let line = marker_line(start_ns, end_ns, name);
    let ds = decimal(start_ns as nat);
    let de = decimal(end_ns as nat);
    lemma_decimal_digits(start_ns as nat);
    lemma_decimal_digits(end_ns as nat);
    let a = ds.len() as int;
    let b = a + 1 + de.len();
    assert forall|i: int| 0 <= i < a implies is_digit(#[trigger] line[i]) by {
        assert(line[i] == ds[i]);
    }
    assert forall|i: int| a < i < b implies is_digit(#[trigger] line[i]) by {
        assert(line[i] == de[i - a - 1]);
    }
    assert forall|i: int| b < i < line.len() - 1 implies #[trigger] line[i] != NEWLINE by {
        assert(line[i] == name[i - b - 1]);
    }
    assert(line[b + 1] == name[0]);
    assert(fields_at(line, a, b));
}

/// The newlines of two pieces put together are those of each.
proof fn lemma_count_newlines_concat(s: Seq<u8>, t: Seq<u8>)
    ensures
        count_newlines(s + t) == count_newlines(s) + count_newlines(t),
    decreases t.len(),
{
    if t.len() == 0 {
        assert(s + t =~= s);
    } else {
        assert((s + t).drop_last() =~= s + t.drop_last());
        lemma_count_newlines_concat(s, t.drop_last());
    }
}

/// A valid name holds no newline, so its line holds exactly one.
proof fn lemma_line_newlines(start_ns: u64, end_ns: u64, name: Seq<u8>)
    requires
        is_valid_name(name),
    ensures
        count_newlines(marker_line(start_ns, end_ns, name)) == 1,
{
    let line = marker_line(start_ns, end_ns, name);
    let body = line.drop_last();
    lemma_decimal_digits(start_ns as nat);
    lemma_decimal_digits(end_ns as nat);
    assert forall|i: int| 0 <= i < body.len() implies #[trigger] body[i] != NEWLINE by {
        let a = decimal(start_ns as nat).len() as int;
        let b = a + 1 + decimal(end_ns as nat).len();
        if i < a {
            assert(body[i] == decimal(start_ns as nat)[i]);
        } else if a < i < b {
            assert(body[i] == decimal(end_ns as nat)[i - a - 1]);
        } else if i > b {
            assert(body[i] == name[i - b - 1]);
        }
    }
    lemma_no_newlines(body);
}

/// A sequence without newline bytes counts none.
proof fn lemma_no_newlines(s: Seq<u8>)
    requires
        forall|i: int| 0 <= i < s.len() ==> #[trigger] s[i] != NEWLINE,
    ensures
        count_newlines(s) == 0,
    decreases s.len(),
{
    if s.len() > 0 {
        lemma_no_newlines(s.drop_last());
    }
}

/// A marker file written with lines of valid names holds one newline per
/// line, and when it holds any line its last byte is a newline.
pub proof fn lemma_file_format(records: Seq<(u64, u64, Seq<u8>)>)
    requires
        forall|k: int| 0 <= k < records.len() ==> is_valid_name(#[trigger] records[k].2),
    ensures
        ({
            let contents = file_contents(
                records.map_values(|r: (u64, u64, Seq<u8>)| marker_line(r.0, r.1, r.2)),
            );
            &&& count_newlines(contents) == records.len()
            &&& records.len() > 0 ==> contents.last() == NEWLINE
        }),
    decreases records.len(),
{
    let lines = records.map_values(|r: (u64, u64, Seq<u8>)| marker_line(r.0, r.1, r.2));
    if records.len() > 0 {
        let prev = records.drop_last();
        lemma_file_format(prev);
        let r = records.last();
        assert(prev.map_values(|r: (u64, u64, Seq<u8>)| marker_line(r.0, r.1, r.2))
            =~= lines.drop_last());
        assert(lines.last() == marker_line(r.0, r.1, r.2));
        lemma_line_newlines(r.0, r.1, r.2);
        lemma_count_newlines_concat(file_contents(lines.drop_last()), lines.last());
    }
}

/// Two writers of one process with distinct thread identifiers get distinct
/// marker files.
pub proof fn lemma_file_names_distinct(pid: u32, t1: u64, t2: u64)
    requires
        t1 != t2,
    ensures
        file_name(pid, Some(t1)) != file_name(pid, Some(t2)),
{
    if file_name(pid, Some(t1)) == file_name(pid, Some(t2)) {
        let head = file_prefix() + decimal(pid as nat) + seq![45u8];
        let n1 = file_name(pid, Some(t1));
        let n2 = file_name(pid, Some(t2));
        let d1 = decimal(t1 as nat);
        let d2 = decimal(t2 as nat);
        assert(n1 =~= head + d1 + file_suffix());
        assert(n2 =~= head + d2 + file_suffix());
        assert(d1.len() == d2.len());
        assert(n1.subrange(head.len() as int, (head.len() + d1.len()) as int) =~= d1);
        assert(n2.subrange(head.len() as int, (head.len() + d2.len()) as int) =~= d2);
        lemma_decimal_injective(t1 as nat, t2 as nat);
    }
}

} // verus!
