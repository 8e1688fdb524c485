//! The NTFS change journal: deciding whether a saved cursor can be resumed,
//! decoding `USN_RECORD_V2` buffers, and folding records into index changes.

use vstd::prelude::*;
use crate::catalog::search::{file_extension, file_extension_of};
use crate::catalog::types::{JournalCheckpoint, JournalMetadata, NtfsChange, NtfsNode};
use crate::text::{
    chars_of, eq_ignore_case, eq_ignore_case_exec, from_utf16_lossy, string_of, to_lowercase,
    unicode_lowercase, utf16_lossy,
};

verus! {

/// File reference number of an NTFS volume's root directory.
pub const NTFS_ROOT_FRN: u64 = 5;

/// Fixed part of a `USN_RECORD_V2`, before the file name.
pub const USN_V2_MIN_LENGTH: usize = 60;

pub const USN_REASON_FILE_DELETE: u32 = 0x0000_0200;

pub const USN_REASON_RENAME_OLD_NAME: u32 = 0x0000_1000;

pub const USN_REASON_CLOSE: u32 = 0x8000_0000;

pub const FILE_ATTRIBUTE_DIRECTORY: u32 = 0x10;

// ---------------------------------------------------------------------------
// Journal continuity
// ---------------------------------------------------------------------------

#[derive(Clone, Copy, Debug, PartialEq, Eq, Structural)]
pub enum RebuildReason {
    MissingCheckpoint,
    JournalIdChanged,
    CursorTruncated,
    CursorAhead,
}

/// What to do with a volume's index given its saved journal cursor.
#[derive(Clone, Copy, Debug, PartialEq, Eq, Structural)]
pub enum JournalContinuity {
    /// The cursor is at the journal's end.
    Current,
    /// The records between the cursor and the end are still in the journal.
    CatchUp,
    /// The history since the cursor is gone or belongs to another journal.
    Rebuild(RebuildReason),
}

pub open spec fn continuity(checkpoint: Option<JournalCheckpoint>, journal: JournalMetadata) -> JournalContinuity {
    match checkpoint {
        None => JournalContinuity::Rebuild(RebuildReason::MissingCheckpoint),
        Some(c) => {
            let oldest = if journal.first_usn >= journal.lowest_valid_usn {
                journal.first_usn
            } else {
                journal.lowest_valid_usn
            };
            if c.journal_id != journal.journal_id {
                JournalContinuity::Rebuild(RebuildReason::JournalIdChanged)
            } else if c.next_usn < oldest {
                JournalContinuity::Rebuild(RebuildReason::CursorTruncated)
            } else if c.next_usn > journal.next_usn {
                JournalContinuity::Rebuild(RebuildReason::CursorAhead)
            } else if c.next_usn == journal.next_usn {
                JournalContinuity::Current
            } else {
                JournalContinuity::CatchUp
            }
        },
    }
}

/// Whether the index can resume from `checkpoint`, and if not, why.
pub fn journal_continuity(checkpoint: Option<JournalCheckpoint>, journal: JournalMetadata) -> (r:
    JournalContinuity)
    ensures
        r == continuity(checkpoint, journal),
{
    let checkpoint = match checkpoint {
        None => {
            return JournalContinuity::Rebuild(RebuildReason::MissingCheckpoint);
        },
        Some(c) => c,
    };
    if checkpoint.journal_id != journal.journal_id {
        return JournalContinuity::Rebuild(RebuildReason::JournalIdChanged);
    }
    let oldest = if journal.first_usn >= journal.lowest_valid_usn {
        journal.first_usn
    } else {
        journal.lowest_valid_usn
    };
    if checkpoint.next_usn < oldest {
        return JournalContinuity::Rebuild(RebuildReason::CursorTruncated);
    }
    if checkpoint.next_usn > journal.next_usn {
        return JournalContinuity::Rebuild(RebuildReason::CursorAhead);
    }
    if checkpoint.next_usn == journal.next_usn {
        JournalContinuity::Current
    } else {
        JournalContinuity::CatchUp
    }
}

// ---------------------------------------------------------------------------
// Little-endian fields
// ---------------------------------------------------------------------------

pub open spec fn le_u16(b: Seq<u8>, off: int) -> u16 {
    (b[off] + 256 * b[off + 1]) as u16
}

pub open spec fn le_u32(b: Seq<u8>, off: int) -> u32 {
    (b[off] + 256 * (b[off + 1] + 256 * (b[off + 2] + 256 * b[off + 3]))) as u32
}

pub open spec fn le_u64(b: Seq<u8>, off: int) -> u64 {
    (b[off] + 256 * (b[off + 1] + 256 * (b[off + 2] + 256 * (b[off + 3] + 256 * (b[off + 4] + 256
        * (b[off + 5] + 256 * (b[off + 6] + 256 * b[off + 7]))))))) as u64
}

pub fn read_u16(bytes: &[u8], offset: usize) -> (r: Option<u16>)
    ensures
        r == (if offset + 2 <= bytes@.len() {
            Some(le_u16(bytes@, offset as int))
        } else {
            None
        }),
{
    if bytes.len() < 2 || offset > bytes.len() - 2 {
        return None;
    }
    let lo = bytes[offset] as u16;
    let hi = bytes[offset + 1] as u16;
    Some(lo + 256 * hi)
}

pub fn read_u32(bytes: &[u8], offset: usize) -> (r: Option<u32>)
    ensures
        r == (if offset + 4 <= bytes@.len() {
            Some(le_u32(bytes@, offset as int))
        } else {
            None
        }),
{
    if bytes.len() < 4 || offset > bytes.len() - 4 {
        return None;
    }
    let mut v: u32 = bytes[offset + 3] as u32;
    v = bytes[offset + 2] as u32 + 256 * v;
    v = bytes[offset + 1] as u32 + 256 * v;
    v = bytes[offset] as u32 + 256 * v;
    Some(v)
}

pub fn read_u64(bytes: &[u8], offset: usize) -> (r: Option<u64>)
    ensures
        r == (if offset + 8 <= bytes@.len() {
            Some(le_u64(bytes@, offset as int))
        } else {
            None
        }),
{
    if bytes.len() < 8 || offset > bytes.len() - 8 {
        return None;
    }
    let mut v: u64 = bytes[offset + 7] as u64;
    v = bytes[offset + 6] as u64 + 256 * v;
    v = bytes[offset + 5] as u64 + 256 * v;
    v = bytes[offset + 4] as u64 + 256 * v;
    v = bytes[offset + 3] as u64 + 256 * v;
    v = bytes[offset + 2] as u64 + 256 * v;
    v = bytes[offset + 1] as u64 + 256 * v;
    v = bytes[offset] as u64 + 256 * v;
    Some(v)
}

pub fn read_i64(bytes: &[u8], offset: usize) -> (r: Option<i64>)
    ensures
        r == (if offset + 8 <= bytes@.len() {
            Some(le_u64(bytes@, offset as int) as i64)
        } else {
            None
        }),
{
    match read_u64(bytes, offset) {
        Some(v) => Some(v as i64),
        None => None,
    }
}

// ---------------------------------------------------------------------------
// Records
// ---------------------------------------------------------------------------

/// NTFS metadata files (`$Mft`, `$LogFile`, ...) directly under the root and
/// the root's `System Volume Information` are not findable by name; the
/// catalog skips them and their subtrees.
pub open spec fn root_system_node(name: Seq<char>, parent_frn: u64) -> bool {
    parent_frn == NTFS_ROOT_FRN && ((name.len() > 0 && name[0] == '$') || eq_ignore_case(
        name,
        "system volume information"@,
    ))
}

pub fn is_root_system_node(name: &str, parent_frn: u64) -> (r: bool)
    ensures
        r == root_system_node(name@, parent_frn),
{
    if parent_frn != NTFS_ROOT_FRN {
        return false;
    }
    let cs = chars_of(name);
    if cs.len() > 0 && cs[0] == '$' {
        return true;
    }
    let target = chars_of("system volume information");
    eq_ignore_case_exec(cs.as_slice(), target.as_slice())
}

/// One decoded `USN_RECORD_V2`.
#[derive(Debug)]
pub struct UsnRecordV2 {
    pub frn: u64,
    pub parent_frn: u64,
    pub usn: i64,
    pub timestamp: i64,
    pub reason: u32,
    pub attributes: u32,
    pub name: String,
}

/// A record with its name as characters.
#[verifier::ext_equal]
pub struct RecordView {
    pub frn: u64,
    pub parent_frn: u64,
    pub usn: i64,
    pub timestamp: i64,
    pub reason: u32,
    pub attributes: u32,
    pub name: Seq<char>,
}

impl View for UsnRecordV2 {
    type V = RecordView;

    open spec fn view(&self) -> RecordView {
        RecordView {
            frn: self.frn,
            parent_frn: self.parent_frn,
            usn: self.usn,
            timestamp: self.timestamp,
            reason: self.reason,
            attributes: self.attributes,
            name: self.name@,
        }
    }
}

#[derive(Debug)]
pub enum ParsedUsnRecord {
    V2(UsnRecordV2),
    /// A record of another major version, skipped by its declared length.
    Unsupported { major_version: u16 },
}

pub enum ParsedView {
    V2(RecordView),
    Unsupported(u16),
}

impl View for ParsedUsnRecord {
    type V = ParsedView;

    open spec fn view(&self) -> ParsedView {
        match self {
            ParsedUsnRecord::V2(r) => ParsedView::V2(r@),
            ParsedUsnRecord::Unsupported { major_version } => ParsedView::Unsupported(*major_version),
        }
    }
}

/// Why a journal buffer could not be decoded.
#[derive(Clone, Copy, Debug, PartialEq, Eq, Structural)]
pub enum UsnError {
    ShortCommonHeader,
    ShortVersionHeader,
    LengthOutsideBuffer,
    ShortFixedHeader,
    InvalidNameRange,
    NameBeyondRecord,
    /// The device returned fewer bytes than its header, or more than asked.
    InvalidBufferLength,
    UnsupportedVersion(u16),
}

/// The message the catalog logs for `e`.
pub open spec fn usn_error_message(e: UsnError) -> Seq<char> {
    match e {
        UsnError::ShortCommonHeader => "USN record is shorter than its common header"@,
        UsnError::ShortVersionHeader => "USN record is shorter than its version header"@,
        UsnError::LengthOutsideBuffer => "USN record length is outside the returned buffer"@,
        UsnError::ShortFixedHeader => "USN v2 record is shorter than the fixed header"@,
        UsnError::InvalidNameRange => "USN v2 record contains an invalid UTF-16 filename range"@,
        UsnError::NameBeyondRecord => "USN filename extends beyond its record"@,
        UsnError::InvalidBufferLength => "the journal returned an invalid buffer length"@,
        UsnError::UnsupportedVersion(_) => "unsupported USN record major version in journal"@,
    }
}

impl UsnError {
    /// The message the catalog logs.
    pub fn message(&self) -> (r: &'static str)
        ensures
            r@ == usn_error_message(*self),
    {
        match self {
            UsnError::ShortCommonHeader => "USN record is shorter than its common header",
            UsnError::ShortVersionHeader => "USN record is shorter than its version header",
            UsnError::LengthOutsideBuffer => "USN record length is outside the returned buffer",
            UsnError::ShortFixedHeader => "USN v2 record is shorter than the fixed header",
            UsnError::InvalidNameRange => "USN v2 record contains an invalid UTF-16 filename range",
            UsnError::NameBeyondRecord => "USN filename extends beyond its record",
            UsnError::InvalidBufferLength => "the journal returned an invalid buffer length",
            UsnError::UnsupportedVersion(_) => "unsupported USN record major version in journal",
        }
    }
}

/// The UTF-16 code units of `count` little-endian pairs from `start`.
pub open spec fn utf16_units(b: Seq<u8>, start: int, count: int) -> Seq<u16> {
    Seq::new(count as nat, |i: int| le_u16(b, start + 2 * i))
}

/// Decoding of the record at the start of `b`: the record and its declared
/// length, or why it is malformed.
pub open spec fn record_result(b: Seq<u8>) -> Result<(ParsedView, int), UsnError> {
    if b.len() < 4 {
        Err(UsnError::ShortCommonHeader)
    } else if b.len() < 8 {
        Err(UsnError::ShortVersionHeader)
    } else {
        let len = le_u32(b, 0) as int;
        let major = le_u16(b, 4);
        if len < 8 || len > b.len() {
            Err(UsnError::LengthOutsideBuffer)
        } else if major != 2 {
            Ok((ParsedView::Unsupported(major), len))
        } else if len < USN_V2_MIN_LENGTH {
            Err(UsnError::ShortFixedHeader)
        } else {
            let name_len = le_u16(b, 56) as int;
            let name_off = le_u16(b, 58) as int;
            if name_len % 2 != 0 || name_off % 2 != 0 || name_off < USN_V2_MIN_LENGTH {
                Err(UsnError::InvalidNameRange)
            } else if name_off + name_len > len {
                Err(UsnError::NameBeyondRecord)
            } else {
                Ok(
                    (
                        ParsedView::V2(
                            RecordView {
                                frn: le_u64(b, 8),
                                parent_frn: le_u64(b, 16),
                                usn: le_u64(b, 24) as i64,
                                timestamp: le_u64(b, 32) as i64,
                                reason: le_u32(b, 40),
                                attributes: le_u32(b, 52),
                                name: utf16_lossy(utf16_units(b, name_off, name_len / 2)),
                            },
                        ),
                        len,
                    ),
                )
            }
        }
    }
}

/// Decodes the record at the start of `bytes` (see `record_result`).
pub fn parse_record(bytes: &[u8]) -> (r: Result<(ParsedUsnRecord, usize), UsnError>)
    ensures
        match r {
            Ok((p, n)) => record_result(bytes@) == Ok::<(ParsedView, int), UsnError>(
                (p@, n as int),
            ),
            Err(e) => record_result(bytes@) == Err::<(ParsedView, int), UsnError>(e),
        },
{
    let record_length = match read_u32(bytes, 0) {
        Some(v) => v as usize,
        None => {
            return Err(UsnError::ShortCommonHeader);
        },
    };
    let major_version = match read_u16(bytes, 4) {
        Some(v) => v,
        None => {
            return Err(UsnError::ShortVersionHeader);
        },
    };
    if read_u16(bytes, 6).is_none() {
        return Err(UsnError::ShortVersionHeader);
    }
    if record_length < 8 || record_length > bytes.len() {
        return Err(UsnError::LengthOutsideBuffer);
    }
    if major_version != 2 {
        return Ok((ParsedUsnRecord::Unsupported { major_version }, record_length));
    }
    if record_length < USN_V2_MIN_LENGTH {
        return Err(UsnError::ShortFixedHeader);
    }
    let name_length = read_u16(bytes, 56).unwrap() as usize;
    let name_offset = read_u16(bytes, 58).unwrap() as usize;
    if name_length % 2 != 0 || name_offset % 2 != 0 || name_offset < USN_V2_MIN_LENGTH {
        return Err(UsnError::InvalidNameRange);
    }
    let name_end = name_offset + name_length;
    if name_end > record_length {
        return Err(UsnError::NameBeyondRecord);
    }
    let count = name_length / 2;
    let blen = bytes.len();
    let mut utf16: Vec<u16> = Vec::new();
    let mut k: usize = 0;
    while k < count
        invariant
            blen == bytes@.len(),
            k <= count,
            name_offset + 2 * count <= bytes@.len(),
            utf16@ =~= utf16_units(bytes@, name_offset as int, k as int),
        decreases count - k,
    {
        let at = name_offset + 2 * k;
        let lo = bytes[at] as u16;
        let hi = bytes[at + 1] as u16;
        utf16.push(lo + 256 * hi);
        k += 1;
    }
    let record = UsnRecordV2 {
        frn: read_u64(bytes, 8).unwrap(),
        parent_frn: read_u64(bytes, 16).unwrap(),
        usn: read_i64(bytes, 24).unwrap(),
        timestamp: read_i64(bytes, 32).unwrap(),
        reason: read_u32(bytes, 40).unwrap(),
        attributes: read_u32(bytes, 52).unwrap(),
        name: from_utf16_lossy(utf16.as_slice()),
    };
    assert(record@ =~= RecordView {
        frn: le_u64(bytes@, 8),
        parent_frn: le_u64(bytes@, 16),
        usn: le_u64(bytes@, 24) as i64,
        timestamp: le_u64(bytes@, 32) as i64,
        reason: le_u32(bytes@, 40),
        attributes: le_u32(bytes@, 52),
        name: utf16_lossy(utf16_units(bytes@, name_offset as int, count as int)),
    });
    Ok((ParsedUsnRecord::V2(record), record_length))
}

// ---------------------------------------------------------------------------
// Folding records into changes
// ---------------------------------------------------------------------------

/// An index node with its strings as characters.
#[verifier::ext_equal]
pub struct NodeView {
    pub frn: u64,
    pub parent_frn: u64,
    pub name: Seq<char>,
    pub lower_name: Seq<char>,
    pub extension: Option<Seq<char>>,
    pub is_directory: bool,
    pub attributes: u32,
    pub modified_at: i64,
    pub size: u64,
}

impl View for NtfsNode {
    type V = NodeView;

    open spec fn view(&self) -> NodeView {
        NodeView {
            frn: self.frn,
            parent_frn: self.parent_frn,
            name: self.name@,
            lower_name: self.lower_name@,
            extension: match self.extension {
                Some(e) => Some(e@),
                None => None,
            },
            is_directory: self.is_directory,
            attributes: self.attributes,
            modified_at: self.modified_at,
            size: self.size,
        }
    }
}

pub enum ChangeView {
    Upsert(NodeView),
    Delete(u64),
}

impl View for NtfsChange {
    type V = ChangeView;

    open spec fn view(&self) -> ChangeView {
        match self {
            NtfsChange::Upsert(n) => ChangeView::Upsert(n@),
            NtfsChange::Delete { frn } => ChangeView::Delete(*frn),
        }
    }
}

pub open spec fn changes_view(v: Seq<NtfsChange>) -> Seq<ChangeView> {
    v.map_values(|c: NtfsChange| c@)
}

pub open spec fn records_view(v: Seq<UsnRecordV2>) -> Seq<RecordView> {
    v.map_values(|r: UsnRecordV2| r@)
}

/// The index node a record describes. Journal records carry no size.
pub open spec fn node_of(r: RecordView) -> NodeView {
    let dir = r.attributes & FILE_ATTRIBUTE_DIRECTORY != 0;
    NodeView {
        frn: r.frn,
        parent_frn: r.parent_frn,
        name: r.name,
        lower_name: unicode_lowercase(r.name),
        extension: if dir {
            None
        } else {
            match file_extension(r.name) {
                Some(e) => Some(unicode_lowercase(e)),
                None => None,
            }
        },
        is_directory: dir,
        attributes: r.attributes,
        modified_at: r.timestamp,
        size: 0,
    }
}

impl UsnRecordV2 {
    /// The index node this record describes.
    pub fn into_node(self) -> (r: NtfsNode)
        ensures
            r@ == node_of(self@),
    {
        let is_directory = self.attributes & FILE_ATTRIBUTE_DIRECTORY != 0;
        let extension = if is_directory {
            None
        } else {
            match file_extension_of(self.name.as_str()) {
                Some(e) => Some(to_lowercase(e.as_str())),
                None => None,
            }
        };
        let r = NtfsNode {
            frn: self.frn,
            parent_frn: self.parent_frn,
            lower_name: to_lowercase(self.name.as_str()),
            name: self.name,
            extension,
            is_directory,
            attributes: self.attributes,
            modified_at: self.timestamp,
            size: 0,
        };
        assert(r@ =~= node_of(self@));
        r
    }
}

pub open spec fn change_frn(c: ChangeView) -> u64 {
    match c {
        ChangeView::Upsert(n) => n.frn,
        ChangeView::Delete(frn) => frn,
    }
}

/// `s` with the change for `c`'s file replaced by `c`, or `c` appended.
pub open spec fn set_change(s: Seq<ChangeView>, c: ChangeView) -> Seq<ChangeView>
    decreases s.len(),
{
    if s.len() == 0 {
        seq![c]
    } else if change_frn(s[0]) == change_frn(c) {
        s.update(0, c)
    } else {
        seq![s[0]] + set_change(s.drop_first(), c)
    }
}

/// The changes a batch of records amounts to: for each file, the last
/// meaningful thing that happened to it. Deletions win over their file's
/// earlier records; an old-name rename record is left to its new-name twin;
/// close-only records and the root's system entries change nothing.
pub open spec fn fold_view(rs: Seq<RecordView>) -> Seq<ChangeView>
    decreases rs.len(),
{
    if rs.len() == 0 {
        seq![]
    } else {
        let st = fold_view(rs.drop_last());
        let r = rs.last();
        if root_system_node(r.name, r.parent_frn) {
            st
        } else if r.reason & USN_REASON_FILE_DELETE != 0 {
            set_change(st, ChangeView::Delete(r.frn))
        } else if r.reason & USN_REASON_RENAME_OLD_NAME != 0 {
            st
        } else if r.reason & !USN_REASON_CLOSE != 0 {
            set_change(st, ChangeView::Upsert(node_of(r)))
        } else {
            st
        }
    }
}

/// No two changes concern the same file.
pub open spec fn one_change_per_file(s: Seq<ChangeView>) -> bool {
    forall|i: int, j: int| 0 <= i < j < s.len() ==> change_frn(s[i]) != change_frn(s[j])
}

proof fn lemma_set_change_at(s: Seq<ChangeView>, c: ChangeView, i: int)
    requires
        0 <= i < s.len(),
        change_frn(s[i]) == change_frn(c),
        forall|k: int| 0 <= k < i ==> change_frn(s[k]) != change_frn(c),
    ensures
        set_change(s, c) == s.update(i, c),
    decreases i,
{
    if i > 0 {
        lemma_set_change_at(s.drop_first(), c, i - 1);
        assert(seq![s[0]] + s.drop_first().update(i - 1, c) =~= s.update(i, c));
    }
}

proof fn lemma_set_change_absent(s: Seq<ChangeView>, c: ChangeView)
    requires
        forall|k: int| 0 <= k < s.len() ==> change_frn(s[k]) != change_frn(c),
    ensures
        set_change(s, c) == s.push(c),
    decreases s.len(),
{
    if s.len() > 0 {
        lemma_set_change_absent(s.drop_first(), c);
        assert(seq![s[0]] + s.drop_first().push(c) =~= s.push(c));
    }
}

proof fn lemma_fold_unique(rs: Seq<RecordView>)
    ensures
        one_change_per_file(fold_view(rs)),
    decreases rs.len(),
{
    if rs.len() > 0 {
        lemma_fold_unique(rs.drop_last());
        let st = fold_view(rs.drop_last());
        let r = rs.last();
        if !root_system_node(r.name, r.parent_frn) {
            if r.reason & USN_REASON_FILE_DELETE != 0 {
                lemma_set_change_unique(st, ChangeView::Delete(r.frn));
            } else if r.reason & USN_REASON_RENAME_OLD_NAME == 0 && r.reason & !USN_REASON_CLOSE != 0 {
                lemma_set_change_unique(st, ChangeView::Upsert(node_of(r)));
            }
        }
    }
}

proof fn lemma_set_change_unique(s: Seq<ChangeView>, c: ChangeView)
    requires
        one_change_per_file(s),
    ensures
        one_change_per_file(set_change(s, c)),
{
    if exists|k: int| 0 <= k < s.len() && change_frn(s[k]) == change_frn(c) {
        let k = choose|k: int| 0 <= k < s.len() && change_frn(s[k]) == change_frn(c);
        lemma_set_change_at(s, c, k);
    } else {
        lemma_set_change_absent(s, c);
    }
}

/// Each file's change keeps its place; a new file's goes last.
fn set_change_exec(changes: &mut Vec<NtfsChange>, c: NtfsChange)
    ensures
        changes_view(final(changes)@) == set_change(changes_view(old(changes)@), c@),
{
    let frn = match &c {
        NtfsChange::Upsert(n) => n.frn,
        NtfsChange::Delete { frn } => *frn,
    };
    let ghost before = changes_view(changes@);
    let mut i: usize = 0;
    while i < changes.len()
        invariant
            i <= changes@.len(),
            changes@ == old(changes)@,
            before == changes_view(changes@),
            frn == change_frn(c@),
            forall|k: int| 0 <= k < i ==> change_frn(before[k]) != frn,
        decreases changes@.len() - i,
    {
        let here = match &changes[i] {
            NtfsChange::Upsert(n) => n.frn,
            NtfsChange::Delete { frn } => *frn,
        };
        assert(change_frn(before[i as int]) == here);
        if here == frn {
            proof {
                lemma_set_change_at(before, c@, i as int);
            }
            changes.set(i, c);
            assert(changes_view(changes@) =~= before.update(i as int, c@));
            return;
        }
        i += 1;
    }
    proof {
        lemma_set_change_absent(before, c@);
    }
    changes.push(c);
    assert(changes_view(changes@) =~= before.push(c@));
}

/// Folds a batch of records into index changes (see `fold_view`); each file
/// appears at most once.
pub fn fold_records(records: Vec<UsnRecordV2>) -> (r: Vec<NtfsChange>)
    ensures
        changes_view(r@) == fold_view(records_view(records@)),
        one_change_per_file(changes_view(r@)),
{
    let ghost rs = records_view(records@);
    let n = records.len();
    let mut rest = records;
    let mut changes: Vec<NtfsChange> = Vec::new();
    let mut k: usize = 0;
    assert(rs.take(0) =~= seq![]);
    assert(changes_view(changes@) =~= seq![]);
    assert(records_view(rest@) =~= rs.skip(0));
    while rest.len() > 0
        invariant
            k + rest@.len() == n,
            n == rs.len(),
            records_view(rest@) == rs.skip(k as int),
            changes_view(changes@) == fold_view(rs.take(k as int)),
        decreases rest@.len(),
    {
        let ghost before = rest@;
        let record = rest.remove(0);
        proof {
            assert(record@ == records_view(before)[0]);
            assert(rs.take(k + 1).drop_last() =~= rs.take(k as int));
            assert(rs.take(k + 1).last() == rs.skip(k as int)[0]);
        }
        if is_root_system_node(record.name.as_str(), record.parent_frn) {
        } else if record.reason & USN_REASON_FILE_DELETE != 0 {
            let frn = record.frn;
            set_change_exec(&mut changes, NtfsChange::Delete { frn });
        } else if record.reason & USN_REASON_RENAME_OLD_NAME != 0 {
        } else if record.reason & !USN_REASON_CLOSE != 0 {
            let node = record.into_node();
            set_change_exec(&mut changes, NtfsChange::Upsert(node));
        }
        k += 1;
        assert forall|j: int| 0 <= j < rest@.len() implies #[trigger] records_view(rest@)[j] == rs.skip(
            k as int,
        )[j] by {
            assert(rest@[j] == before[j + 1]);
            assert(records_view(before)[j + 1] == rs.skip(k - 1)[j + 1]);
        }
        assert(records_view(rest@) =~= rs.skip(k as int));
    }
    assert(rs.take(k as int) =~= rs);
    proof {
        lemma_fold_unique(rs);
    }
    changes
}

// ---------------------------------------------------------------------------
// Journal buffers
// ---------------------------------------------------------------------------

/// The records of a read buffer from byte `off` on.
pub open spec fn batch_records(b: Seq<u8>, off: int) -> Result<Seq<RecordView>, UsnError>
    decreases b.len() - off,
{
    if off < 0 || off >= b.len() {
        Ok(seq![])
    } else {
        match record_result(b.subrange(off, b.len() as int)) {
            Err(e) => Err(e),
            Ok((ParsedView::Unsupported(m), _)) => Err(UsnError::UnsupportedVersion(m)),
            Ok((ParsedView::V2(r), len)) => if len <= 0 {
                Err(UsnError::LengthOutsideBuffer)
            } else {
                match batch_records(b, off + len) {
                    Ok(rest) => Ok(seq![r] + rest),
                    Err(e) => Err(e),
                }
            },
        }
    }
}

/// One `FSCTL_READ_USN_JOURNAL` result: the cursor to read from next and
/// the changes since the previous cursor.
#[derive(Debug)]
pub struct JournalReadBatch {
    pub next_usn: i64,
    pub changes: Vec<NtfsChange>,
    pub record_count: u64,
}

/// Decodes a journal read: an 8-byte next cursor, then records.
pub fn parse_journal_buffer(output: &[u8]) -> (r: Result<JournalReadBatch, UsnError>)
    ensures
        output@.len() < 8 ==> r == Err::<JournalReadBatch, UsnError>(UsnError::InvalidBufferLength),
        output@.len() >= 8 ==> match batch_records(output@, 8) {
            Err(e) => r == Err::<JournalReadBatch, UsnError>(e),
            Ok(rs) => r matches Ok(batch) && batch.next_usn == le_u64(output@, 0) as i64
                && changes_view(batch.changes@) == fold_view(rs) && batch.record_count == rs.len(),
        },
{
    let returned = output.len();
    if returned < 8 {
        return Err(UsnError::InvalidBufferLength);
    }
    let next_usn = read_i64(output, 0).unwrap();
    let mut records: Vec<UsnRecordV2> = Vec::new();
    let mut offset: usize = 8;
    while offset < returned
        invariant
            returned == output@.len(),
            8 <= offset <= returned,
            batch_records(output@, 8) == match batch_records(output@, offset as int) {
                Ok(rest) => Ok(records_view(records@) + rest),
                Err(e) => Err::<Seq<RecordView>, UsnError>(e),
            },
        decreases returned - offset,
    {
        let tail = vstd::slice::slice_subrange(output, offset, returned);
        let (record, length) = match parse_record(tail) {
            Ok(p) => p,
            Err(e) => {
                return Err(e);
            },
        };
        match record {
            ParsedUsnRecord::V2(record) => {
                let ghost prev = records@;
                proof {
                    assert(records_view(prev.push(record)) =~= records_view(prev).push(record@));
                    assert(records_view(prev).push(record@) + match batch_records(output@, offset + length) { Ok(rest) => rest, Err(_) => seq![] }
                        =~= records_view(prev) + (seq![record@] + match batch_records(output@, offset + length) { Ok(rest) => rest, Err(_) => seq![] }));
                }
                records.push(record);
            },
            ParsedUsnRecord::Unsupported { major_version } => {
                return Err(UsnError::UnsupportedVersion(major_version));
            },
        }
        offset = offset + length;
    }
    let record_count = records.len() as u64;
    assert(batch_records(output@, offset as int) == Ok::<Seq<RecordView>, UsnError>(seq![]));
    assert(records_view(records@) + seq![] =~= records_view(records@));
    Ok(JournalReadBatch { next_usn, changes: fold_records(records), record_count })
}

/// Decodes a `USN_JOURNAL_DATA_V0` answer, which must hold at least its
/// first 32 bytes.
pub fn journal_metadata(output: &[u8]) -> (r: Result<JournalMetadata, UsnError>)
    ensures
        output@.len() < 32 ==> r == Err::<JournalMetadata, UsnError>(UsnError::InvalidBufferLength),
        output@.len() >= 32 ==> r == Ok::<JournalMetadata, UsnError>(
            JournalMetadata {
                journal_id: le_u64(output@, 0),
                first_usn: le_u64(output@, 8) as i64,
                next_usn: le_u64(output@, 16) as i64,
                lowest_valid_usn: le_u64(output@, 24) as i64,
            },
        ),
{
    if output.len() < 32 {
        return Err(UsnError::InvalidBufferLength);
    }
    Ok(
        JournalMetadata {
            journal_id: read_u64(output, 0).unwrap(),
            first_usn: read_i64(output, 8).unwrap(),
            next_usn: read_i64(output, 16).unwrap(),
            lowest_valid_usn: read_i64(output, 24).unwrap(),
        },
    )
}

/// A record that changes the index: not one of the root's system entries,
/// and either a deletion, or anything but an old-name rename record or a
/// bare close.
pub open spec fn changes_index(r: RecordView) -> bool {
    !root_system_node(r.name, r.parent_frn) && (r.reason & USN_REASON_FILE_DELETE != 0 || (r.reason
        & USN_REASON_RENAME_OLD_NAME == 0 && r.reason & !USN_REASON_CLOSE != 0))
}

/// What such a record does to its file: removes it when it reports a
/// deletion, else records the file as the record describes it.
pub open spec fn record_change(r: RecordView) -> ChangeView {
    if r.reason & USN_REASON_FILE_DELETE != 0 {
        ChangeView::Delete(r.frn)
    } else {
        ChangeView::Upsert(node_of(r))
    }
}

/// The position of the last record in `rs` that changes file `f`.
pub open spec fn last_change_of(rs: Seq<RecordView>, f: u64) -> Option<int>
    decreases rs.len(),
{
    if rs.len() == 0 {
        None
    } else if rs.last().frn == f && changes_index(rs.last()) {
        Some(rs.len() - 1)
    } else {
        last_change_of(rs.drop_last(), f)
    }
}

proof fn lemma_last_change_in_range(rs: Seq<RecordView>, f: u64)
    ensures
        last_change_of(rs, f) matches Some(i) ==> 0 <= i < rs.len() && rs[i].frn == f && changes_index(rs[i]),
    decreases rs.len(),
{
    if rs.len() > 0 {
        lemma_last_change_in_range(rs.drop_last(), f);
        if let Some(i) = last_change_of(rs.drop_last(), f) {
            assert(rs.drop_last()[i] == rs[i]);
        }
    }
}

proof fn lemma_set_change_members(s: Seq<ChangeView>, c: ChangeView)
    requires
        one_change_per_file(s),
    ensures
        set_change(s, c).contains(c),
        forall|x: ChangeView|
            #[trigger] set_change(s, c).contains(x) && change_frn(x) == change_frn(c) ==> x == c,
        forall|x: ChangeView|
            change_frn(x) != change_frn(c) ==> (#[trigger] set_change(s, c).contains(x) <==> s.contains(x)),
{
    if exists|k: int| 0 <= k < s.len() && change_frn(s[k]) == change_frn(c) {
        let i = choose|k: int| 0 <= k < s.len() && change_frn(s[k]) == change_frn(c);
        assert forall|k: int| 0 <= k < i implies change_frn(s[k]) != change_frn(c) by {
            assert(change_frn(s[k]) != change_frn(s[i]));
        }
        lemma_set_change_at(s, c, i);
        let u = s.update(i, c);
        assert(u[i] == c);
        assert forall|x: ChangeView| #[trigger] u.contains(x) && change_frn(x) == change_frn(c) implies x == c by {
            let k = choose|k: int| 0 <= k < u.len() && u[k] == x;
            if k != i {
                assert(u[k] == s[k]);
                assert(change_frn(s[k]) == change_frn(s[i]));
            }
        }
        assert forall|x: ChangeView| change_frn(x) != change_frn(c) implies (#[trigger] u.contains(x) <==> s.contains(
            x,
        )) by {
            if u.contains(x) {
                let k = choose|k: int| 0 <= k < u.len() && u[k] == x;
                assert(k != i);
                assert(s[k] == x);
            }
            if s.contains(x) {
                let k = choose|k: int| 0 <= k < s.len() && s[k] == x;
                assert(k != i);
                assert(u[k] == x);
            }
        }
    } else {
        lemma_set_change_absent(s, c);
        let u = s.push(c);
        assert(u[s.len() as int] == c);
        assert forall|x: ChangeView| #[trigger] u.contains(x) && change_frn(x) == change_frn(c) implies x == c by {
            let k = choose|k: int| 0 <= k < u.len() && u[k] == x;
            if k < s.len() {
                assert(u[k] == s[k]);
            }
        }
        assert forall|x: ChangeView| change_frn(x) != change_frn(c) implies (#[trigger] u.contains(x) <==> s.contains(
            x,
        )) by {
            if u.contains(x) {
                let k = choose|k: int| 0 <= k < u.len() && u[k] == x;
                assert(k < s.len());
                assert(s[k] == x);
            }
            if s.contains(x) {
                let k = choose|k: int| 0 <= k < s.len() && s[k] == x;
                assert(u[k] == x);
            }
        }
    }
}

/// The last record wins: after folding a batch, each file's entry is what
/// its last index-changing record says (a deletion when that record
/// reports one, whatever came before), and a file no record changed has
/// no entry.
pub proof fn law_fold_keeps_each_files_last_change(rs: Seq<RecordView>, f: u64)
    ensures
        match last_change_of(rs, f) {
            Some(i) => {
                &&& fold_view(rs).contains(record_change(rs[i]))
                &&& forall|x: ChangeView| #[trigger] fold_view(rs).contains(x) && change_frn(x) == f ==> x
                    == record_change(rs[i])
            },
            None => forall|x: ChangeView| #[trigger] fold_view(rs).contains(x) ==> change_frn(x) != f,
        },
    decreases rs.len(),
{
    if rs.len() > 0 {
        let init = rs.drop_last();
        let r = rs.last();
        law_fold_keeps_each_files_last_change(init, f);
        lemma_fold_unique(init);
        lemma_last_change_in_range(init, f);
        let st = fold_view(init);
        if changes_index(r) {
            let c = record_change(r);
            assert(change_frn(c) == r.frn);
            lemma_set_change_members(st, c);
            if r.reason & USN_REASON_FILE_DELETE != 0 {
                assert(fold_view(rs) == set_change(st, c));
            } else {
                assert(fold_view(rs) == set_change(st, c));
            }
            if r.frn != f {
                if let Some(i) = last_change_of(init, f) {
                    assert(init[i] == rs[i]);
                    assert(change_frn(record_change(rs[i])) == f);
                }
            }
        } else {
            assert(fold_view(rs) == st);
            if let Some(i) = last_change_of(init, f) {
                assert(init[i] == rs[i]);
            }
        }
    }
}

/// A saved cursor is resumed only when the same journal still holds every
/// record after it: at or after both its first record and its lowest valid
/// one, and not past its end; it is current exactly at the end. A cursor
/// older than what the journal still holds always means a rebuild for a
/// truncated cursor, a missing cursor or another journal always a rebuild
/// for that reason.
pub proof fn law_resume_only_with_whole_history(checkpoint: Option<JournalCheckpoint>, journal: JournalMetadata)
    ensures
        (continuity(checkpoint, journal) == JournalContinuity::Current || continuity(checkpoint, journal)
            == JournalContinuity::CatchUp) <==> (checkpoint matches Some(c) && c.journal_id == journal.journal_id
            && journal.first_usn <= c.next_usn && journal.lowest_valid_usn <= c.next_usn && c.next_usn
            <= journal.next_usn),
        continuity(checkpoint, journal) == JournalContinuity::Current <==> (checkpoint matches Some(c)
            && c.journal_id == journal.journal_id && journal.first_usn <= c.next_usn && journal.lowest_valid_usn
            <= c.next_usn && c.next_usn == journal.next_usn),
        checkpoint is None ==> continuity(checkpoint, journal) == JournalContinuity::Rebuild(
            RebuildReason::MissingCheckpoint,
        ),
        checkpoint matches Some(c) && c.journal_id != journal.journal_id ==> continuity(checkpoint, journal)
            == JournalContinuity::Rebuild(RebuildReason::JournalIdChanged),
        checkpoint matches Some(c) && c.journal_id == journal.journal_id && (c.next_usn < journal.first_usn
            || c.next_usn < journal.lowest_valid_usn) ==> continuity(checkpoint, journal)
            == JournalContinuity::Rebuild(RebuildReason::CursorTruncated),
{
}

} // verus!
