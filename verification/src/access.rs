//! The decision side of the handle-access discipline and of the
//! timestamp accessor: which rights an open requests for each intent,
//! the sentinel that keeps the last-access time untouched while a file
//! is inspected, and the structured records handed to the native
//! get and set calls. The native calls themselves live in the
//! unverified binary; it takes these values as computed here.

use vstd::prelude::*;

use crate::record::TimestampRecord;

verus! {

/// Right to read a file's attributes and timestamps.
pub const READ_ATTRIBUTES_RIGHT: u32 = 0x80;

/// Right to write a file's attributes and timestamps.
pub const WRITE_ATTRIBUTES_RIGHT: u32 = 0x100;

/// Share mode that still admits concurrent readers.
pub const SHARE_READ_MODE: u32 = 0x1;

/// Open flag that admits directories and reparse points.
pub const BACKUP_SEMANTICS_FLAG: u32 = 0x02000000;

/// Open disposition that never creates a file.
pub const OPEN_EXISTING_DISPOSITION: u32 = 3;

/// Why a handle is being opened.
#[derive(Clone, Copy, Debug, PartialEq, Eq, Structural)]
pub enum OpenIntent {
    /// Read the four timestamps without disturbing them.
    Inspect,
    /// Write the four timestamps back.
    Restore,
}

/// The access rights an open requests for an intent. Inspection asks
/// for the write right too: it is needed solely to suppress the
/// last-access update that the open itself would cause.
pub fn access_rights(intent: OpenIntent) -> (r: u32)
    ensures
        intent is Inspect ==> r == READ_ATTRIBUTES_RIGHT | WRITE_ATTRIBUTES_RIGHT,
        intent is Restore ==> r == WRITE_ATTRIBUTES_RIGHT,
{
    match intent {
        OpenIntent::Inspect => READ_ATTRIBUTES_RIGHT | WRITE_ATTRIBUTES_RIGHT,
        OpenIntent::Restore => WRITE_ATTRIBUTES_RIGHT,
    }
}

/// One native file time as its two 32-bit halves.
#[derive(Clone, Copy, Debug, PartialEq, Eq, Structural)]
pub struct FileTimeParts {
    pub low: u32,
    pub high: u32,
}

/// The documented sentinel a set-time call takes for "leave this time
/// unchanged": both halves all ones. Issued for the last-access time
/// right after an inspect open, so that the act of inspecting does not
/// itself advance that time.
pub fn keep_unchanged_file_time() -> (t: FileTimeParts)
    ensures
        t.low == u32::MAX,
        t.high == u32::MAX,
{
    FileTimeParts { low: u32::MAX, high: u32::MAX }
}

/// The native basic-file-information record: the four timestamps in
/// the order the native structure lays them out, and the attribute
/// flags.
#[derive(Clone, Copy, Debug, PartialEq, Eq, Structural)]
pub struct BasicFileInfo {
    pub creation_time: i64,
    pub last_access_time: i64,
    pub last_write_time: i64,
    pub change_time: i64,
    pub file_attributes: u32,
}

/// The record a restore hands to the native set call. The attributes
/// field carries zero, the documented sentinel for "do not alter the
/// attributes": restoring timestamps never changes the read-only,
/// hidden, system or archive bits.
pub fn restore_info(rec: &TimestampRecord) -> (info: BasicFileInfo)
    ensures
        info.creation_time == rec.created,
        info.last_write_time == rec.modified,
        info.change_time == rec.changed,
        info.last_access_time == rec.accessed,
        info.file_attributes == 0,
{
    BasicFileInfo {
        creation_time: rec.created,
        last_access_time: rec.accessed,
        last_write_time: rec.modified,
        change_time: rec.changed,
        file_attributes: 0,
    }
}

/// The record an inspection reads out of the native query, field for
/// field.
pub fn record_of_basic_info(info: &BasicFileInfo) -> (rec: TimestampRecord)
    ensures
        rec.created == info.creation_time,
        rec.modified == info.last_write_time,
        rec.changed == info.change_time,
        rec.accessed == info.last_access_time,
{
    TimestampRecord {
        created: info.creation_time,
        modified: info.last_write_time,
        changed: info.change_time,
        accessed: info.last_access_time,
    }
}

} // verus!
