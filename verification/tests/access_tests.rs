use winstamp::access::access_rights;
use winstamp::access::keep_unchanged_file_time;
use winstamp::access::record_of_basic_info;
use winstamp::access::restore_info;
use winstamp::access::BasicFileInfo;
use winstamp::access::OpenIntent;
use winstamp::record::TimestampRecord;

#[test]
fn inspect_asks_for_both_attribute_rights() {
    assert_eq!(access_rights(OpenIntent::Inspect), 0x80 | 0x100);
}

#[test]
fn restore_asks_for_the_write_right_only() {
    assert_eq!(access_rights(OpenIntent::Restore), 0x100);
}

#[test]
fn the_keep_unchanged_sentinel_is_all_ones() {
    let t = keep_unchanged_file_time();
    assert_eq!(t.low, u32::MAX);
    assert_eq!(t.high, u32::MAX);
}

#[test]
fn restore_never_touches_the_attribute_bits() {
    let rec = TimestampRecord::new(1, 2, 3, 4);
    let info = restore_info(&rec);
    assert_eq!(info.file_attributes, 0);
    assert_eq!(info.creation_time, 1);
    assert_eq!(info.last_write_time, 2);
    assert_eq!(info.change_time, 3);
    assert_eq!(info.last_access_time, 4);
}

#[test]
fn inspection_reads_the_fields_it_wrote() {
    let rec = TimestampRecord::new(-5, 0, 77, i64::MIN);
    let info = restore_info(&rec);
    let back = record_of_basic_info(&info);
    assert_eq!(back, rec);
}

#[test]
fn inspection_maps_the_native_fields() {
    let info = BasicFileInfo {
        creation_time: 10,
        last_access_time: 40,
        last_write_time: 20,
        change_time: 30,
        file_attributes: 0x21,
    };
    let rec = record_of_basic_info(&info);
    assert_eq!(rec.created, 10);
    assert_eq!(rec.modified, 20);
    assert_eq!(rec.changed, 30);
    assert_eq!(rec.accessed, 40);
}
