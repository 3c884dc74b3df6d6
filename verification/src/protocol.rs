//! The versioned, tab-separated text protocol: encoding a dump and
//! decoding an apply stream, with the exact success and abort rules.

use vstd::prelude::*;
use vstd::string::StrSliceExecFns;
use vstd::string::StringExecFns;

use crate::decimal::int_literal_of;
use crate::decimal::int_literal_value;
use crate::decimal::is_int_literal;
use crate::decimal::is_i64_literal;
use crate::decimal::int_to_chars;
use crate::decimal::parse_i64;
use crate::record::TimestampRecord;
use crate::text::chars_eq;
use crate::text::clone_chars;
use crate::text::copy_range;
use crate::text::lines_of;
use crate::text::seq_views;
use crate::text::split_chars;
use crate::text::split_lines;
use crate::text::split_on;
use crate::text::str_to_char_vec;

verus! {

/// The format version this crate writes and restores.
pub open spec fn format_version_value() -> int {
    0
}

/// The literal that opens every stream, before the version number.
pub open spec fn version_prefix_text() -> Seq<char> {
    "Version "@
}

/// The version-specific field names of the column header.
pub open spec fn field_header_text() -> Seq<char> {
    "Created"@ + "\t"@ + "Modified"@ + "\t"@ + "Changed"@ + "\t"@ + "Accessed"@
}

/// The whole second line of a stream.
pub open spec fn column_header_text() -> Seq<char> {
    "Path"@ + "\t"@ + field_header_text()
}

/// The whole first line of a stream this crate writes.
pub open spec fn version_line_text() -> Seq<char> {
    version_prefix_text() + int_literal_of(format_version_value())
}

/// The version number this crate writes.
pub fn format_version() -> (v: i32)
    ensures
        v as int == format_version_value(),
{
    0
}

/// The version-specific field names, tab-separated.
pub fn header() -> (h: String)
    ensures
        h@ == field_header_text(),
{
    let mut h = String::from_str("Created");
    h.append("\t");
    h.append("Modified");
    h.append("\t");
    h.append("Changed");
    h.append("\t");
    h.append("Accessed");
    h
}

/// The full column header line: the path column, then the field names.
pub fn column_header() -> (h: String)
    ensures
        h@ == column_header_text(),
{
    let mut h = String::from_str("Path");
    h.append("\t");
    let f = header();
    h.append(f.as_str());
    h
}

/// The column header line as a character vector.
fn column_header_chars() -> (h: Vec<char>)
    ensures
        h@ == column_header_text(),
{
    let s = column_header();
    str_to_char_vec(s.as_str())
}

/// One data row: the path, then the four fields in row order.
pub open spec fn encode_row_text(path: Seq<char>, rec: TimestampRecord) -> Seq<char> {
    path + seq!['\t'] + int_literal_of(rec.created as int) + seq!['\t'] + int_literal_of(
        rec.modified as int,
    ) + seq!['\t'] + int_literal_of(rec.changed as int) + seq!['\t'] + int_literal_of(
        rec.accessed as int,
    )
}

/// Encodes one captured entry as its data row.
pub fn encode_row(path: &Vec<char>, rec: &TimestampRecord) -> (line: Vec<char>)
    ensures
        line@ == encode_row_text(path@, *rec),
{
    let mut line = clone_chars(path);
    line.push('\t');
    let mut f = int_to_chars(rec.created);
    line.append(&mut f);
    line.push('\t');
    let mut f = int_to_chars(rec.modified);
    line.append(&mut f);
    line.push('\t');
    let mut f = int_to_chars(rec.changed);
    line.append(&mut f);
    line.push('\t');
    let mut f = int_to_chars(rec.accessed);
    line.append(&mut f);
    proof {
        assert(line@ =~= encode_row_text(path@, *rec));
    }
    line
}

/// The tab-separated parts of a data row.
pub open spec fn row_parts(line: Seq<char>) -> Seq<Seq<char>> {
    split_on(line, '\t')
}

/// A data row parses when it splits into a path and exactly four
/// fields, each a 64-bit integer literal.
pub open spec fn row_valid(line: Seq<char>) -> bool {
    let p = row_parts(line);
    p.len() == 5 && is_i64_literal(p[1]) && is_i64_literal(p[2]) && is_i64_literal(p[3])
        && is_i64_literal(p[4])
}

/// The path of a data row: everything before the first tab.
pub open spec fn row_path(line: Seq<char>) -> Seq<char> {
    row_parts(line)[0]
}

/// The record a valid data row denotes, fields taken in row order.
pub open spec fn row_record(line: Seq<char>) -> TimestampRecord {
    let p = row_parts(line);
    TimestampRecord {
        created: int_literal_value(p[1]) as i64,
        modified: int_literal_value(p[2]) as i64,
        changed: int_literal_value(p[3]) as i64,
        accessed: int_literal_value(p[4]) as i64,
    }
}

pub open spec fn row_of_line(line: Seq<char>) -> (Seq<char>, TimestampRecord) {
    (row_path(line), row_record(line))
}

/// Index of the first data row that does not parse, or the number of
/// rows when all parse.
pub open spec fn first_bad_row(rows: Seq<Seq<char>>) -> nat
    decreases rows.len(),
{
    if rows.len() == 0 {
        0
    } else if !row_valid(rows[0]) {
        0
    } else {
        1 + first_bad_row(rows.drop_first())
    }
}

pub proof fn lemma_first_bad_row_is(rows: Seq<Seq<char>>, k: int)
    requires
        0 <= k <= rows.len(),
        forall|j: int| 0 <= j < k ==> row_valid(#[trigger] rows[j]),
        k < rows.len() ==> !row_valid(rows[k]),
    ensures
        first_bad_row(rows) == k,
    decreases rows.len(),
{
    if rows.len() == 0 {
    } else if !row_valid(rows[0]) {
        assert(k == 0);
    } else {
        assert(row_valid(rows[0]));
        assert(k >= 1);
        assert forall|j: int| 0 <= j < k - 1 implies row_valid(#[trigger] rows.drop_first()[j]) by {
            assert(rows.drop_first()[j] == rows[j + 1]);
        }
        if k - 1 < rows.drop_first().len() {
            assert(rows.drop_first()[k - 1] == rows[k]);
        }
        lemma_first_bad_row_is(rows.drop_first(), k - 1);
    }
}

/// What an apply run does for one outcome of decoding.
#[derive(Clone, Copy, Debug, PartialEq, Eq, Structural)]
pub enum ApplyOutcome {
    /// Every data row was decoded; the whole plan is to be performed.
    Completed,
    /// The stream names a version this crate does not know: nothing is
    /// restored, and the run still counts as a success.
    UnknownVersion(i32),
    /// The stream does not open with the version-line prefix: fatal.
    BadPrefix,
    /// The version line is missing or not a 32-bit integer: fatal.
    BadVersionLine,
    /// The stream ends before the column header line: fatal.
    MissingHeader,
    /// The column header is not the version's header, byte for byte: fatal.
    BadHeader,
    /// A data row failed to decode: fatal, but the rows before it are
    /// still to be performed.
    BadRow,
}

/// One restoration the decoder planned: a path and the record to write
/// back to it.
pub struct RestoreEntry {
    pub path: Vec<char>,
    pub record: TimestampRecord,
}

/// What an apply stream decodes to: the restorations to perform, in
/// stream order, and how the run ends.
pub struct ApplyPlan {
    pub sets: Vec<RestoreEntry>,
    pub outcome: ApplyOutcome,
}

/// Specification-level image of an apply plan.
pub struct PlanShape {
    pub outcome: ApplyOutcome,
    pub sets: Seq<(Seq<char>, TimestampRecord)>,
}

pub open spec fn entry_views(v: Seq<RestoreEntry>) -> Seq<(Seq<char>, TimestampRecord)> {
    v.map_values(|e: RestoreEntry| (e.path@, e.record))
}

pub open spec fn plan_matches(p: ApplyPlan, s: PlanShape) -> bool {
    p.outcome == s.outcome && entry_views(p.sets@) == s.sets
}

/// The restorations planned from the data rows: every row before the
/// first bad one.
pub open spec fn planned_sets(rows: Seq<Seq<char>>) -> Seq<(Seq<char>, TimestampRecord)> {
    rows.take(first_bad_row(rows) as int).map_values(|l: Seq<char>| row_of_line(l))
}

/// Decoding of the lines after the version line: the header line must
/// match exactly, then every data row is decoded until the first bad
/// one aborts the rest.
pub open spec fn apply_shape(lines: Seq<Seq<char>>) -> PlanShape {
    if lines.len() == 0 {
        PlanShape { outcome: ApplyOutcome::MissingHeader, sets: Seq::empty() }
    } else if lines[0] != column_header_text() {
        PlanShape { outcome: ApplyOutcome::BadHeader, sets: Seq::empty() }
    } else {
        let rows = lines.drop_first();
        PlanShape {
            outcome: if first_bad_row(rows) == rows.len() {
                ApplyOutcome::Completed
            } else {
                ApplyOutcome::BadRow
            },
            sets: planned_sets(rows),
        }
    }
}

/// A version literal that fits a 32-bit integer, as the version line
/// demands.
pub open spec fn is_version_literal(s: Seq<char>) -> bool {
    is_int_literal(s) && -2147483648 <= int_literal_value(s) <= 2147483647
}

/// Decoding of a whole apply stream: the fixed prefix, the version
/// number, then the lines handed on to the recognized version — or
/// nothing at all for an unknown version.
pub open spec fn apply_any_shape(input: Seq<char>) -> PlanShape {
    let pt = version_prefix_text();
    if input.len() < pt.len() || input.subrange(0, pt.len() as int) != pt {
        PlanShape { outcome: ApplyOutcome::BadPrefix, sets: Seq::empty() }
    } else {
        let ls = lines_of(input.skip(pt.len() as int));
        if ls.len() == 0 || !is_version_literal(ls[0]) {
            PlanShape { outcome: ApplyOutcome::BadVersionLine, sets: Seq::empty() }
        } else if int_literal_value(ls[0]) != format_version_value() {
            PlanShape {
                outcome: ApplyOutcome::UnknownVersion(int_literal_value(ls[0]) as i32),
                sets: Seq::empty(),
            }
        } else {
            apply_shape(ls.drop_first())
        }
    }
}

/// Decodes one data row.
fn parse_row(line: &Vec<char>) -> (r: Option<RestoreEntry>)
    ensures
        (r is Some) == row_valid(line@),
        r matches Some(e) ==> e.path@ == row_path(line@) && e.record == row_record(line@),
{
    let parts = split_chars(line, '\t');
    proof {
        assert(seq_views(parts@).len() == parts@.len());
        assert forall|k: int| 0 <= k < parts@.len() implies #[trigger] parts@[k]@ == row_parts(
            line@,
        )[k] by {
            assert(seq_views(parts@)[k] == parts@[k]@);
        }
    }
    if parts.len() != 5 {
        return None;
    }
    let created = match parse_i64(&parts[1]) {
        Some(v) => v,
        None => {
            return None;
        },
    };
    let modified = match parse_i64(&parts[2]) {
        Some(v) => v,
        None => {
            return None;
        },
    };
    let changed = match parse_i64(&parts[3]) {
        Some(v) => v,
        None => {
            return None;
        },
    };
    let accessed = match parse_i64(&parts[4]) {
        Some(v) => v,
        None => {
            return None;
        },
    };
    Some(
        RestoreEntry {
            path: clone_chars(&parts[0]),
            record: TimestampRecord { created, modified, changed, accessed },
        },
    )
}

/// Decodes the header line and the data rows that start at `start`.
fn apply_from(lines: &Vec<Vec<char>>, start: usize) -> (r: ApplyPlan)
    requires
        start <= lines@.len(),
    ensures
        plan_matches(r, apply_shape(seq_views(lines@).skip(start as int))),
{
    let ghost ls = seq_views(lines@).skip(start as int);
    let n = lines.len();
    proof {
        assert(ls.len() == n - start);
    }
    if start == n {
        let r = ApplyPlan { sets: Vec::new(), outcome: ApplyOutcome::MissingHeader };
        proof {
            assert(entry_views(r.sets@) =~= apply_shape(ls).sets);
        }
        return r;
    }
    let hdr = column_header_chars();
    proof {
        assert(ls[0] == lines@[start as int]@);
    }
    if !chars_eq(&lines[start], &hdr) {
        let r = ApplyPlan { sets: Vec::new(), outcome: ApplyOutcome::BadHeader };
        proof {
            assert(entry_views(r.sets@) =~= apply_shape(ls).sets);
        }
        return r;
    }
    let ghost rows = ls.drop_first();
    let mut sets: Vec<RestoreEntry> = Vec::new();
    let mut i: usize = start + 1;
    while i < n
        invariant
            start + 1 <= i <= n,
            n == lines@.len(),
            start < n,
            ls == seq_views(lines@).skip(start as int),
            ls[0] == column_header_text(),
            rows == ls.drop_first(),
            forall|j: int| 0 <= j < i - start - 1 ==> row_valid(#[trigger] rows[j]),
            sets@.len() == i - start - 1,
            forall|j: int|
                0 <= j < i - start - 1 ==> (#[trigger] sets@[j]).path@ == row_path(rows[j])
                    && sets@[j].record == row_record(rows[j]),
        decreases n - i,
    {
        proof {
            assert(rows[i - start - 1] == ls[i - start] && ls[i - start] == lines@[i as int]@);
        }
        match parse_row(&lines[i]) {
            Some(e) => {
                sets.push(e);
            },
            None => {
                proof {
                    lemma_first_bad_row_is(rows, i - start - 1);
                    assert(entry_views(sets@) =~= planned_sets(rows));
                }
                return ApplyPlan { sets, outcome: ApplyOutcome::BadRow };
            },
        }
        i = i + 1;
    }
    proof {
        lemma_first_bad_row_is(rows, rows.len() as int);
        assert(entry_views(sets@) =~= planned_sets(rows));
    }
    ApplyPlan { sets, outcome: ApplyOutcome::Completed }
}

/// Decodes the lines that follow a recognized version line: the column
/// header, then the data rows. The plan holds every row decoded before
/// the first bad one; the outcome says whether the run completed or
/// why it aborted.
pub fn apply(lines: &Vec<Vec<char>>) -> (r: ApplyPlan)
    ensures
        plan_matches(r, apply_shape(seq_views(lines@))),
{
    let r = apply_from(lines, 0);
    proof {
        assert(seq_views(lines@).skip(0) =~= seq_views(lines@));
    }
    r
}

/// Decodes a whole apply stream. The plan lists the restorations to
/// perform in stream order; the outcome distinguishes completion, the
/// unknown-version no-op, and each fatal abort.
pub fn apply_any(input: &str) -> (r: ApplyPlan)
    ensures
        plan_matches(r, apply_any_shape(input@)),
{
    let chars = str_to_char_vec(input);
    let pv = str_to_char_vec("Version ");
    let pn = pv.len();
    if chars.len() < pn {
        let r = ApplyPlan { sets: Vec::new(), outcome: ApplyOutcome::BadPrefix };
        proof {
            assert(entry_views(r.sets@) =~= Seq::<(Seq<char>, TimestampRecord)>::empty());
        }
        return r;
    }
    let head = copy_range(&chars, 0, pn);
    if !chars_eq(&head, &pv) {
        let r = ApplyPlan { sets: Vec::new(), outcome: ApplyOutcome::BadPrefix };
        proof {
            assert(entry_views(r.sets@) =~= Seq::<(Seq<char>, TimestampRecord)>::empty());
        }
        return r;
    }
    let rest = copy_range(&chars, pn, chars.len());
    proof {
        assert(rest@ =~= input@.skip(version_prefix_text().len() as int));
    }
    let ls = split_lines(&rest);
    let ghost lsv = lines_of(input@.skip(version_prefix_text().len() as int));
    proof {
        assert(ls@.len() == lsv.len());
    }
    if ls.len() == 0 {
        let r = ApplyPlan { sets: Vec::new(), outcome: ApplyOutcome::BadVersionLine };
        proof {
            assert(entry_views(r.sets@) =~= Seq::<(Seq<char>, TimestampRecord)>::empty());
        }
        return r;
    }
    proof {
        assert(ls@[0]@ == lsv[0]);
    }
    let version = match parse_i64(&ls[0]) {
        Some(v) => v,
        None => {
            let r = ApplyPlan { sets: Vec::new(), outcome: ApplyOutcome::BadVersionLine };
            proof {
                assert(!is_i64_literal(lsv[0]));
                assert(!is_version_literal(lsv[0]));
                assert(entry_views(r.sets@) =~= Seq::<(Seq<char>, TimestampRecord)>::empty());
            }
            return r;
        },
    };
    if version < -2147483648i64 || version > 2147483647i64 {
        let r = ApplyPlan { sets: Vec::new(), outcome: ApplyOutcome::BadVersionLine };
        proof {
            assert(entry_views(r.sets@) =~= Seq::<(Seq<char>, TimestampRecord)>::empty());
        }
        return r;
    }
    if version != 0 {
        let r = ApplyPlan {
            sets: Vec::new(),
            outcome: ApplyOutcome::UnknownVersion(version as i32),
        };
        proof {
            assert(entry_views(r.sets@) =~= Seq::<(Seq<char>, TimestampRecord)>::empty());
        }
        return r;
    }
    let r = apply_from(&ls, 1);
    proof {
        assert(seq_views(ls@).skip(1) =~= lsv.drop_first());
    }
    r
}

/// One entry the traversal visited: its path, and the record captured
/// for it, or nothing when inspection failed and the entry is skipped.
pub struct DumpEntry {
    pub path: Vec<char>,
    pub record: Option<TimestampRecord>,
}

pub open spec fn dump_entry_views(v: Seq<DumpEntry>) -> Seq<(Seq<char>, Option<TimestampRecord>)> {
    v.map_values(|e: DumpEntry| (e.path@, e.record))
}

/// The entries that were actually captured, in traversal order.
pub open spec fn captured(entries: Seq<(Seq<char>, Option<TimestampRecord>)>) -> Seq<
    (Seq<char>, TimestampRecord),
>
    decreases entries.len(),
{
    if entries.len() == 0 {
        Seq::empty()
    } else {
        captured(entries.drop_last()) + match entries.last().1 {
            Some(r) => seq![(entries.last().0, r)],
            None => Seq::empty(),
        }
    }
}

/// The lines a dump writes: the version line, the column header, then
/// one row for each captured entry. Skipped entries leave no trace.
pub open spec fn dump_lines_text(entries: Seq<(Seq<char>, Option<TimestampRecord>)>) -> Seq<
    Seq<char>,
> {
    seq![version_line_text(), column_header_text()] + captured(entries).map_values(
        |e: (Seq<char>, TimestampRecord)| encode_row_text(e.0, e.1),
    )
}

/// Encodes a dump: one line per captured entry, after the two fixed
/// leading lines.
pub fn dump(entries: &Vec<DumpEntry>) -> (out: Vec<Vec<char>>)
    ensures
        seq_views(out@) == dump_lines_text(dump_entry_views(entries@)),
{
    let ghost ev = dump_entry_views(entries@);
    let mut out: Vec<Vec<char>> = Vec::new();
    let mut l0 = str_to_char_vec("Version ");
    let mut vtxt = int_to_chars(format_version() as i64);
    l0.append(&mut vtxt);
    out.push(l0);
    let h = column_header_chars();
    out.push(h);
    proof {
        assert(ev.take(0) =~= Seq::<(Seq<char>, Option<TimestampRecord>)>::empty());
        assert(seq_views(out@) =~= seq![version_line_text(), column_header_text()]);
        assert(seq_views(out@) =~= dump_lines_text(ev.take(0)));
    }
    let n = entries.len();
    let mut i: usize = 0;
    while i < n
        invariant
            i <= n,
            n == entries@.len(),
            ev == dump_entry_views(entries@),
            seq_views(out@) == dump_lines_text(ev.take(i as int)),
        decreases n - i,
    {
        let ghost old_out = out@;
        proof {
            assert(ev[i as int] == (entries@[i as int].path@, entries@[i as int].record));
            assert(ev.take(i as int + 1).drop_last() =~= ev.take(i as int));
            assert(ev.take(i as int + 1).last() == ev[i as int]);
        }
        match entries[i].record {
            Some(rec) => {
                let line = encode_row(&entries[i].path, &rec);
                out.push(line);
                proof {
                    let c0 = captured(ev.take(i as int));
                    let c1 = captured(ev.take(i as int + 1));
                    assert(c1 =~= c0 + seq![(entries@[i as int].path@, rec)]);
                    let d0 = dump_lines_text(ev.take(i as int));
                    let d1 = dump_lines_text(ev.take(i as int + 1));
                    assert(d1.len() == d0.len() + 1);
                    assert(seq_views(out@).len() == d1.len());
                    assert forall|j: int| 0 <= j < d1.len() implies seq_views(out@)[j] == d1[j] by {
                        assert(seq_views(out@)[j] == out@[j]@);
                        if j < d0.len() {
                            assert(out@[j]@ == old_out[j]@);
                            assert(seq_views(old_out)[j] == old_out[j]@);
                            if j >= 2 {
                                assert(d0[j] == encode_row_text(c0[j - 2].0, c0[j - 2].1));
                                assert(d1[j] == encode_row_text(c1[j - 2].0, c1[j - 2].1));
                                assert(c1[j - 2] == c0[j - 2]);
                            }
                        } else {
                            assert(j == d1.len() - 1);
                            assert(out@[j]@ == line@);
                            assert(d1[j] == encode_row_text(c1[j - 2].0, c1[j - 2].1));
                            assert(c1[j - 2] == (entries@[i as int].path@, rec));
                        }
                    }
                    assert(seq_views(out@) =~= d1);
                }
            },
            None => {
                proof {
                    assert(captured(ev.take(i as int + 1)) =~= captured(ev.take(i as int)));
                    assert(seq_views(out@) =~= dump_lines_text(ev.take(i as int + 1)));
                }
            },
        }
        i = i + 1;
    }
    proof {
        assert(ev.take(n as int) =~= ev);
    }
    out
}

} // verus!
