//! The protocol's laws: the dump/apply round trip, what a dump of an
//! empty tree looks like, that skipped entries leave no trace, and the
//! decoder's no-op and abort rules.

use vstd::prelude::*;

use crate::decimal::int_literal_of;
use crate::decimal::int_literal_value;
use crate::decimal::is_i64_literal;
use crate::decimal::lemma_digits_of_correct;
use crate::decimal::lemma_int_literal_chars;
use crate::decimal::lemma_int_literal_round_trip;
use crate::protocol::apply_any_shape;
use crate::protocol::apply_shape;
use crate::protocol::captured;
use crate::protocol::column_header_text;
use crate::protocol::dump_lines_text;
use crate::protocol::encode_row_text;
use crate::protocol::field_header_text;
use crate::protocol::format_version_value;
use crate::protocol::is_version_literal;
use crate::protocol::lemma_first_bad_row_is;
use crate::protocol::planned_sets;
use crate::protocol::row_of_line;
use crate::protocol::row_parts;
use crate::protocol::row_path;
use crate::protocol::row_record;
use crate::protocol::row_valid;
use crate::protocol::version_line_text;
use crate::protocol::version_prefix_text;
use crate::protocol::ApplyOutcome;
use crate::record::TimestampRecord;
use crate::text::lemma_find_sep_is;
use crate::text::lemma_split_prepend;
use crate::text::lemma_split_whole;
use crate::text::lines_of;
use crate::text::strip_cr;

verus! {

/// A line free of the line-break characters, so that joining and
/// re-splitting leaves it untouched.
pub open spec fn no_break(l: Seq<char>) -> bool {
    forall|i: int| 0 <= i < l.len() ==> l[i] != '\n' && l[i] != '\r'
}

/// A path the protocol can carry in one row: free of line breaks and
/// of the tab that separates the columns. Windows path syntax forbids
/// all three characters in any case.
pub open spec fn path_ok(p: Seq<char>) -> bool {
    forall|i: int| 0 <= i < p.len() ==> p[i] != '\n' && p[i] != '\r' && p[i] != '\t'
}

/// The lines of a stream, joined with one newline after each line, as
/// dump prints them.
pub open spec fn join_lines(lines: Seq<Seq<char>>) -> Seq<char>
    decreases lines.len(),
{
    if lines.len() == 0 {
        Seq::empty()
    } else {
        lines[0] + seq!['\n'] + join_lines(lines.drop_first())
    }
}

proof fn lemma_no_break_concat(a: Seq<char>, b: Seq<char>)
    requires
        no_break(a),
        no_break(b),
    ensures
        no_break(a + b),
{
    assert forall|i: int| 0 <= i < (a + b).len() implies (a + b)[i] != '\n' && (a + b)[i]
        != '\r' by {
        if i < a.len() {
            assert((a + b)[i] == a[i]);
        } else {
            assert((a + b)[i] == b[i - a.len()]);
        }
    }
}

proof fn lemma_literal_facts()
    ensures
        no_break(version_prefix_text()),
        no_break(column_header_text()),
{
    reveal_strlit("Version ");
    reveal_strlit("Path");
    reveal_strlit("\t");
    reveal_strlit("Created");
    reveal_strlit("Modified");
    reveal_strlit("Changed");
    reveal_strlit("Accessed");
    assert(no_break("Version "@));
    assert(no_break("Path"@));
    assert(no_break("\t"@));
    assert(no_break("Created"@));
    assert(no_break("Modified"@));
    assert(no_break("Changed"@));
    assert(no_break("Accessed"@));
    lemma_no_break_concat("Created"@, "\t"@);
    lemma_no_break_concat("Created"@ + "\t"@, "Modified"@);
    lemma_no_break_concat("Created"@ + "\t"@ + "Modified"@, "\t"@);
    lemma_no_break_concat("Created"@ + "\t"@ + "Modified"@ + "\t"@, "Changed"@);
    lemma_no_break_concat("Created"@ + "\t"@ + "Modified"@ + "\t"@ + "Changed"@, "\t"@);
    lemma_no_break_concat(
        "Created"@ + "\t"@ + "Modified"@ + "\t"@ + "Changed"@ + "\t"@,
        "Accessed"@,
    );
    lemma_no_break_concat("Path"@, "\t"@);
    lemma_no_break_concat("Path"@ + "\t"@, field_header_text());
}

/// Digits and the minus sign are not breaks and not tabs.
proof fn lemma_int_literal_clean(v: int)
    ensures
        no_break(int_literal_of(v)),
        forall|i: int| 0 <= i < int_literal_of(v).len() ==> int_literal_of(v)[i] != '\t',
{
    assert forall|i: int| 0 <= i < int_literal_of(v).len() implies int_literal_of(v)[i] != '\n'
        && int_literal_of(v)[i] != '\r' && int_literal_of(v)[i] != '\t' by {
        lemma_int_literal_chars(v, i);
    }
}

/// Joining break-free lines and reading them back as lines yields the
/// same lines.
pub proof fn lemma_lines_of_join(lines: Seq<Seq<char>>)
    requires
        forall|k: int| 0 <= k < lines.len() ==> no_break(#[trigger] lines[k]),
    ensures
        lines_of(join_lines(lines)) == lines,
    decreases lines.len(),
{
    if lines.len() == 0 {
    } else {
        let l0 = lines[0];
        let rest = join_lines(lines.drop_first());
        let s = join_lines(lines);
        assert(s == l0 + seq!['\n'] + rest);
        assert(no_break(l0));
        assert forall|i: int| 0 <= i < l0.len() implies s[i] != '\n' by {
            assert(s[i] == l0[i]);
        }
        assert(s[l0.len() as int] == '\n');
        lemma_find_sep_is(s, '\n', l0.len() as int);
        assert(s.subrange(0, l0.len() as int) =~= l0);
        if l0.len() > 0 {
            assert(l0.last() != '\r');
        }
        assert(strip_cr(l0) == l0);
        assert(s.subrange(l0.len() as int + 1, s.len() as int) =~= rest);
        assert forall|k: int|
            0 <= k < lines.drop_first().len() implies no_break(
            #[trigger] lines.drop_first()[k],
        ) by {
            assert(lines.drop_first()[k] == lines[k + 1]);
        }
        lemma_lines_of_join(lines.drop_first());
        assert(lines_of(s) =~= lines);
    }
}

/// An encoded row splits back into its path and its four fields, and
/// decodes to the record it encoded.
pub proof fn lemma_encode_row_round_trip(path: Seq<char>, rec: TimestampRecord)
    requires
        path_ok(path),
    ensures
        row_valid(encode_row_text(path, rec)),
        row_path(encode_row_text(path, rec)) == path,
        row_record(encode_row_text(path, rec)) == rec,
{
    let c = int_literal_of(rec.created as int);
    let m = int_literal_of(rec.modified as int);
    let h = int_literal_of(rec.changed as int);
    let a = int_literal_of(rec.accessed as int);
    lemma_int_literal_clean(rec.created as int);
    lemma_int_literal_clean(rec.modified as int);
    lemma_int_literal_clean(rec.changed as int);
    lemma_int_literal_clean(rec.accessed as int);
    let r3 = h + seq!['\t'] + a;
    let r2 = m + seq!['\t'] + r3;
    let r1 = c + seq!['\t'] + r2;
    let line = encode_row_text(path, rec);
    assert(line =~= path + seq!['\t'] + r1);
    lemma_split_prepend(path, r1, '\t');
    lemma_split_prepend(c, r2, '\t');
    lemma_split_prepend(m, r3, '\t');
    lemma_split_prepend(h, a, '\t');
    lemma_split_whole(a, '\t');
    assert(row_parts(line) =~= seq![path, c, m, h, a]);
    lemma_int_literal_round_trip(rec.created as int);
    lemma_int_literal_round_trip(rec.modified as int);
    lemma_int_literal_round_trip(rec.changed as int);
    lemma_int_literal_round_trip(rec.accessed as int);
    assert(row_record(line) == rec);
}

/// Every captured entry keeps a path that some visited entry had.
proof fn lemma_captured_paths_ok(entries: Seq<(Seq<char>, Option<TimestampRecord>)>)
    requires
        forall|k: int| 0 <= k < entries.len() ==> path_ok((#[trigger] entries[k]).0),
    ensures
        forall|j: int|
            0 <= j < captured(entries).len() ==> path_ok((#[trigger] captured(entries)[j]).0),
    decreases entries.len(),
{
    if entries.len() == 0 {
    } else {
        let pre = entries.drop_last();
        assert forall|k: int| 0 <= k < pre.len() implies path_ok((#[trigger] pre[k]).0) by {
            assert(pre[k] == entries[k]);
        }
        lemma_captured_paths_ok(pre);
        assert(entries.last() == entries[entries.len() - 1]);
        assert forall|j: int|
            0 <= j < captured(entries).len() implies path_ok(
            (#[trigger] captured(entries)[j]).0,
        ) by {
            if j < captured(pre).len() {
                assert(captured(entries)[j] == captured(pre)[j]);
            } else {
                assert(captured(entries)[j].0 == entries.last().0);
            }
        }
    }
}

/// Round trip: a dump, joined into one stream as it is printed, decodes
/// to a completed plan that restores exactly the captured entries, each
/// with the record that was captured for it.
pub proof fn lemma_round_trip(entries: Seq<(Seq<char>, Option<TimestampRecord>)>)
    requires
        forall|k: int| 0 <= k < entries.len() ==> path_ok((#[trigger] entries[k]).0),
    ensures
        apply_any_shape(join_lines(dump_lines_text(entries))).outcome == ApplyOutcome::Completed,
        apply_any_shape(join_lines(dump_lines_text(entries))).sets == captured(entries),
{
    lemma_literal_facts();
    lemma_captured_paths_ok(entries);
    let dl = dump_lines_text(entries);
    let s = join_lines(dl);
    let pt = version_prefix_text();
    let cap = captured(entries);
    let rowsf = cap.map_values(|e: (Seq<char>, TimestampRecord)| encode_row_text(e.0, e.1));
    let tail0 = int_literal_of(format_version_value());
    lemma_digits_of_correct(0);
    lemma_int_literal_clean(0);
    lemma_int_literal_round_trip(0);

    // every line of the dump is break-free
    assert(dl[0] == version_line_text());
    assert(dl[1] == column_header_text());
    lemma_no_break_concat(pt, tail0);
    assert forall|k: int| 0 <= k < dl.len() implies no_break(#[trigger] dl[k]) by {
        if k >= 2 {
            assert(dl[k] == rowsf[k - 2]);
            assert(rowsf[k - 2] == encode_row_text(cap[k - 2].0, cap[k - 2].1));
            let p = cap[k - 2].0;
            let rec = cap[k - 2].1;
            lemma_int_literal_clean(rec.created as int);
            lemma_int_literal_clean(rec.modified as int);
            lemma_int_literal_clean(rec.changed as int);
            lemma_int_literal_clean(rec.accessed as int);
            assert(path_ok(p));
            let line = encode_row_text(p, rec);
            assert forall|i: int| 0 <= i < line.len() implies line[i] != '\n' && line[i]
                != '\r' by {
                assert(line =~= p + seq!['\t'] + int_literal_of(rec.created as int) + seq!['\t']
                    + int_literal_of(rec.modified as int) + seq!['\t'] + int_literal_of(
                    rec.changed as int,
                ) + seq!['\t'] + int_literal_of(rec.accessed as int));
            }
        }
    }
    lemma_lines_of_join(dl);

    // the stream opens with the prefix
    assert(s == dl[0] + seq!['\n'] + join_lines(dl.drop_first()));
    assert(s.len() >= pt.len());
    assert forall|i: int| 0 <= i < pt.len() implies s.subrange(0, pt.len() as int)[i] == pt[i] by {
        assert(s[i] == dl[0][i]);
        assert(dl[0][i] == pt[i]);
    }
    assert(s.subrange(0, pt.len() as int) =~= pt);

    // the rest of the stream is the version number line, then the rest
    // of the dump
    let tl = seq![tail0] + dl.drop_first();
    assert(tl.drop_first() =~= dl.drop_first());
    assert(join_lines(tl) == tail0 + seq!['\n'] + join_lines(tl.drop_first()));
    assert(s.skip(pt.len() as int) =~= join_lines(tl));
    assert forall|k: int| 0 <= k < tl.len() implies no_break(#[trigger] tl[k]) by {
        if k == 0 {
            assert(tl[0] == tail0);
        } else {
            assert(tl[k] == dl[k]);
        }
    }
    lemma_lines_of_join(tl);
    let ls = lines_of(s.skip(pt.len() as int));
    assert(ls == tl);

    // the version line carries this crate's version
    assert(ls[0] == tail0);
    assert(is_i64_literal(tail0) && int_literal_value(tail0) == 0);
    assert(is_version_literal(tail0));

    // the header matches, and every row decodes to its entry
    let al = ls.drop_first();
    assert(al =~= dl.drop_first());
    assert(al[0] == column_header_text());
    let rows = al.drop_first();
    assert(rows =~= rowsf);
    assert forall|j: int| 0 <= j < rows.len() implies row_valid(#[trigger] rows[j]) by {
        assert(rows[j] == encode_row_text(cap[j].0, cap[j].1));
        lemma_encode_row_round_trip(cap[j].0, cap[j].1);
    }
    lemma_first_bad_row_is(rows, rows.len() as int);
    assert(rows.take(rows.len() as int) =~= rows);
    assert forall|j: int| 0 <= j < rows.len() implies planned_sets(rows)[j] == cap[j] by {
        assert(planned_sets(rows)[j] == row_of_line(rows[j]));
        lemma_encode_row_round_trip(cap[j].0, cap[j].1);
        assert(row_path(rows[j]) == cap[j].0);
        assert(row_record(rows[j]) == cap[j].1);
    }
    assert(planned_sets(rows) =~= cap);
    assert(apply_shape(al).outcome == ApplyOutcome::Completed);
    assert(apply_shape(al).sets == cap);
}

/// A dump of a tree with no entries is exactly the two leading lines
/// and no data row.
pub proof fn lemma_dump_empty_tree(entries: Seq<(Seq<char>, Option<TimestampRecord>)>)
    requires
        entries.len() == 0,
    ensures
        dump_lines_text(entries).len() == 2,
        dump_lines_text(entries)[0] == version_line_text(),
        dump_lines_text(entries)[1] == column_header_text(),
{
    assert(captured(entries) =~= Seq::<(Seq<char>, TimestampRecord)>::empty());
}

proof fn lemma_captured_remove_none(entries: Seq<(Seq<char>, Option<TimestampRecord>)>, i: int)
    requires
        0 <= i < entries.len(),
        entries[i].1 is None,
    ensures
        captured(entries.remove(i)) == captured(entries),
    decreases entries.len(),
{
    if i == entries.len() - 1 {
        assert(entries.remove(i) =~= entries.drop_last());
        assert(entries.last().1 is None);
        assert(captured(entries) =~= captured(entries.drop_last()));
    } else {
        let pre = entries.drop_last();
        assert(pre[i] == entries[i]);
        lemma_captured_remove_none(pre, i);
        let r = entries.remove(i);
        assert(r.len() == entries.len() - 1);
        assert(r.drop_last() =~= pre.remove(i));
        assert(r.last() == entries.last());
        assert(captured(r) == captured(pre.remove(i)) + match r.last().1 {
            Some(x) => seq![(r.last().0, x)],
            None => Seq::<(Seq<char>, TimestampRecord)>::empty(),
        });
    }
}

/// An entry whose inspection failed leaves no trace: the dump is the
/// very dump of the tree without it.
pub proof fn lemma_dump_skips_unreadable(
    entries: Seq<(Seq<char>, Option<TimestampRecord>)>,
    i: int,
)
    requires
        0 <= i < entries.len(),
        entries[i].1 is None,
    ensures
        dump_lines_text(entries) == dump_lines_text(entries.remove(i)),
{
    lemma_captured_remove_none(entries, i);
}

/// A stream that names a version this crate does not know plans no
/// restoration at all, whatever its payload, and the run still counts
/// as a success.
pub proof fn lemma_unknown_version_is_noop(input: Seq<char>)
    requires
        ({
            let pt = version_prefix_text();
            let ls = lines_of(input.skip(pt.len() as int));
            &&& input.len() >= pt.len()
            &&& input.subrange(0, pt.len() as int) == pt
            &&& ls.len() > 0
            &&& is_version_literal(ls[0])
            &&& int_literal_value(ls[0]) != format_version_value()
        }),
    ensures
        apply_any_shape(input).outcome == ApplyOutcome::UnknownVersion(
            int_literal_value(lines_of(input.skip(version_prefix_text().len() as int))[0]) as i32,
        ),
        apply_any_shape(input).sets.len() == 0,
{
}

/// A header line that is not the version's header, byte for byte,
/// aborts the run before any restoration is planned.
pub proof fn lemma_header_mismatch_aborts(lines: Seq<Seq<char>>)
    requires
        lines.len() > 0,
        lines[0] != column_header_text(),
    ensures
        apply_shape(lines).outcome == ApplyOutcome::BadHeader,
        apply_shape(lines).sets.len() == 0,
{
}

} // verus!
