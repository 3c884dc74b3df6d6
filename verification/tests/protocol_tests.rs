use winstamp::protocol::apply;
use winstamp::protocol::apply_any;
use winstamp::protocol::column_header;
use winstamp::protocol::dump;
use winstamp::protocol::format_version;
use winstamp::protocol::header;
use winstamp::protocol::ApplyOutcome;
use winstamp::protocol::DumpEntry;
use winstamp::record::TimestampRecord;

fn cv(s: &str) -> Vec<char> {
    s.chars().collect()
}

fn sv(v: &Vec<char>) -> String {
    v.iter().collect()
}

fn join(lines: &Vec<Vec<char>>) -> String {
    let mut out = String::new();
    for l in lines {
        out.push_str(&sv(l));
        out.push('\n');
    }
    out
}

const HEADER: &str = "Path\tCreated\tModified\tChanged\tAccessed";

#[test]
fn version_is_zero() {
    assert_eq!(format_version(), 0);
}

#[test]
fn header_names_the_four_fields() {
    assert_eq!(header(), "Created\tModified\tChanged\tAccessed");
}

#[test]
fn column_header_leads_with_the_path() {
    assert_eq!(column_header(), HEADER);
}

#[test]
fn empty_tree_dumps_two_lines() {
    let lines = dump(&Vec::new());
    assert_eq!(lines.len(), 2);
    assert_eq!(sv(&lines[0]), "Version 0");
    assert_eq!(sv(&lines[1]), HEADER);
}

#[test]
fn dump_writes_one_row_per_captured_entry() {
    let entries = vec![
        DumpEntry { path: cv("a.txt"), record: Some(TimestampRecord::new(1, 2, 3, 4)) },
        DumpEntry { path: cv("b dir\\c"), record: Some(TimestampRecord::new(-1, 0, 9, -4)) },
    ];
    let lines = dump(&entries);
    assert_eq!(lines.len(), 4);
    assert_eq!(sv(&lines[2]), "a.txt\t1\t2\t3\t4");
    assert_eq!(sv(&lines[3]), "b dir\\c\t-1\t0\t9\t-4");
}

#[test]
fn unreadable_entry_is_absent_from_the_dump() {
    let entries = vec![
        DumpEntry { path: cv("ok1"), record: Some(TimestampRecord::new(1, 1, 1, 1)) },
        DumpEntry { path: cv("locked"), record: None },
        DumpEntry { path: cv("ok2"), record: Some(TimestampRecord::new(2, 2, 2, 2)) },
    ];
    let lines = dump(&entries);
    assert_eq!(lines.len(), 4);
    assert_eq!(sv(&lines[2]), "ok1\t1\t1\t1\t1");
    assert_eq!(sv(&lines[3]), "ok2\t2\t2\t2\t2");
    assert!(!join(&lines).contains("locked"));
}

#[test]
fn dump_then_apply_round_trips() {
    let recs = [
        TimestampRecord::new(0, -1, i64::MAX, i64::MIN),
        TimestampRecord::new(132537600000000000, 132537600000000001, 5, -5),
    ];
    let entries = vec![
        DumpEntry { path: cv("C:\\tree\\one.txt"), record: Some(recs[0]) },
        DumpEntry { path: cv("C:\\tree\\two two.log"), record: Some(recs[1]) },
    ];
    let text = join(&dump(&entries));
    let plan = apply_any(&text);
    assert_eq!(plan.outcome, ApplyOutcome::Completed);
    assert_eq!(plan.sets.len(), 2);
    assert_eq!(sv(&plan.sets[0].path), "C:\\tree\\one.txt");
    assert_eq!(plan.sets[0].record, recs[0]);
    assert_eq!(sv(&plan.sets[1].path), "C:\\tree\\two two.log");
    assert_eq!(plan.sets[1].record, recs[1]);
}

#[test]
fn unknown_version_plans_nothing_and_still_succeeds() {
    let text = format!("Version 7\n{}\nfoo\t1\t2\t3\t4\n", HEADER);
    let plan = apply_any(&text);
    assert_eq!(plan.outcome, ApplyOutcome::UnknownVersion(7));
    assert_eq!(plan.sets.len(), 0);
}

#[test]
fn negative_version_is_unknown_too() {
    let plan = apply_any("Version -1\nanything at all");
    assert_eq!(plan.outcome, ApplyOutcome::UnknownVersion(-1));
    assert_eq!(plan.sets.len(), 0);
}

#[test]
fn header_mismatch_aborts_before_any_set() {
    let text = "Version 0\nPath\tWrong\tHeader\nfoo\t1\t2\t3\t4\n";
    let plan = apply_any(text);
    assert_eq!(plan.outcome, ApplyOutcome::BadHeader);
    assert_eq!(plan.sets.len(), 0);
}

#[test]
fn missing_prefix_aborts() {
    let plan = apply_any("version 0\nfoo");
    assert_eq!(plan.outcome, ApplyOutcome::BadPrefix);
    assert_eq!(plan.sets.len(), 0);
}

#[test]
fn truncated_prefix_aborts() {
    let plan = apply_any("Ver");
    assert_eq!(plan.outcome, ApplyOutcome::BadPrefix);
}

#[test]
fn missing_version_number_aborts() {
    assert_eq!(apply_any("Version ").outcome, ApplyOutcome::BadVersionLine);
    assert_eq!(apply_any("Version x\nfoo").outcome, ApplyOutcome::BadVersionLine);
}

#[test]
fn version_beyond_32_bits_aborts() {
    let plan = apply_any("Version 2147483648\nfoo");
    assert_eq!(plan.outcome, ApplyOutcome::BadVersionLine);
    assert_eq!(plan.sets.len(), 0);
}

#[test]
fn stream_without_header_line_aborts() {
    let plan = apply_any("Version 0\n");
    assert_eq!(plan.outcome, ApplyOutcome::MissingHeader);
    assert_eq!(plan.sets.len(), 0);
}

#[test]
fn bad_row_keeps_the_rows_before_it() {
    let text = format!("Version 0\n{}\na\t1\t2\t3\t4\nb\t1\t2\tx\t4\nc\t1\t2\t3\t4\n", HEADER);
    let plan = apply_any(&text);
    assert_eq!(plan.outcome, ApplyOutcome::BadRow);
    assert_eq!(plan.sets.len(), 1);
    assert_eq!(sv(&plan.sets[0].path), "a");
    assert_eq!(plan.sets[0].record, TimestampRecord::new(1, 2, 3, 4));
}

#[test]
fn row_without_a_tab_aborts() {
    let text = format!("Version 0\n{}\nno-tab-here\n", HEADER);
    let plan = apply_any(&text);
    assert_eq!(plan.outcome, ApplyOutcome::BadRow);
    assert_eq!(plan.sets.len(), 0);
}

#[test]
fn row_with_too_many_fields_aborts() {
    let text = format!("Version 0\n{}\na\t1\t2\t3\t4\t5\n", HEADER);
    let plan = apply_any(&text);
    assert_eq!(plan.outcome, ApplyOutcome::BadRow);
    assert_eq!(plan.sets.len(), 0);
}

#[test]
fn carriage_returns_are_stripped_from_lines() {
    let text = format!("Version 0\r\n{}\r\nfoo\t1\t2\t3\t4\r\n", HEADER);
    let plan = apply_any(&text);
    assert_eq!(plan.outcome, ApplyOutcome::Completed);
    assert_eq!(plan.sets.len(), 1);
    assert_eq!(sv(&plan.sets[0].path), "foo");
    assert_eq!(plan.sets[0].record, TimestampRecord::new(1, 2, 3, 4));
}

#[test]
fn missing_final_newline_is_accepted() {
    let text = format!("Version 0\n{}\nfoo\t1\t2\t3\t4", HEADER);
    let plan = apply_any(&text);
    assert_eq!(plan.outcome, ApplyOutcome::Completed);
    assert_eq!(plan.sets.len(), 1);
}

#[test]
fn apply_checks_the_header_at_line_level() {
    let lines = vec![cv(HEADER), cv("x\t-1\t-2\t-3\t-4")];
    let plan = apply(&lines);
    assert_eq!(plan.outcome, ApplyOutcome::Completed);
    assert_eq!(plan.sets.len(), 1);
    assert_eq!(plan.sets[0].record, TimestampRecord::new(-1, -2, -3, -4));

    let bad = vec![cv("not the header")];
    assert_eq!(apply(&bad).outcome, ApplyOutcome::BadHeader);
}

#[test]
fn empty_input_aborts_on_the_prefix() {
    assert_eq!(apply_any("").outcome, ApplyOutcome::BadPrefix);
}
