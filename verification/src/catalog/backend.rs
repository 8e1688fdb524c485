//! Choosing how a volume is indexed (raw NTFS journal or directory walk),
//! and the decisions of a journal synchronisation.

use vstd::prelude::*;
use crate::catalog::types::VolumeInfo;
use crate::catalog::usn::JournalContinuity;
use crate::text::{append_chars, chars_of, eq_ignore_case, eq_ignore_case_exec, string_of};

verus! {

/// `GetDriveTypeW`'s value for a fixed local disk.
pub const DRIVE_FIXED: u32 = 3;

#[derive(Clone, Copy, Debug, PartialEq, Eq, Structural)]
pub enum BackendKind {
    Ntfs,
    Directory,
}

/// The raw NTFS backend serves local fixed NTFS volumes with a drive letter
/// when raw access is available; everything else is walked.
pub open spec fn backend_for(volume: VolumeInfo, raw_access_available: bool) -> BackendKind {
    if raw_access_available && volume.drive_type == DRIVE_FIXED && eq_ignore_case(
        volume.fs_type@,
        "NTFS"@,
    ) && volume.drive_letter is Some {
        BackendKind::Ntfs
    } else {
        BackendKind::Directory
    }
}

pub fn select_backend(volume: &VolumeInfo, raw_access_available: bool) -> (r: BackendKind)
    ensures
        r == backend_for(*volume, raw_access_available),
{
    let fs = chars_of(volume.fs_type.as_str());
    let ntfs = chars_of("NTFS");
    if raw_access_available && volume.drive_type == DRIVE_FIXED && eq_ignore_case_exec(
        fs.as_slice(),
        ntfs.as_slice(),
    ) && volume.drive_letter.is_some() {
        BackendKind::Ntfs
    } else {
        BackendKind::Directory
    }
}

/// Why a volume cannot be opened for raw NTFS access.
#[derive(Clone, Copy, Debug, PartialEq, Eq, Structural)]
pub enum RawOpenError {
    /// The volume is not served by the NTFS backend.
    NotEligible,
    /// Its drive letter is not of the form `X:`.
    NoValidatedDriveLetter,
}

pub open spec fn is_ascii_letter(c: char) -> bool {
    ('A' <= c && c <= 'Z') || ('a' <= c && c <= 'z')
}

/// The device path `\\.\X:` that opens a volume for raw reads.
pub open spec fn raw_device(volume: VolumeInfo) -> Result<Seq<char>, RawOpenError> {
    if backend_for(volume, true) != BackendKind::Ntfs {
        Err(RawOpenError::NotEligible)
    } else {
        match volume.drive_letter {
            Some(d) if d@.len() == 2 && is_ascii_letter(d@[0]) && d@[1] == ':' => Ok(
                "\\\\.\\"@ + seq![d@[0], ':'],
            ),
            _ => Err(RawOpenError::NoValidatedDriveLetter),
        }
    }
}

pub fn raw_device_path(volume: &VolumeInfo) -> (r: Result<String, RawOpenError>)
    ensures
        match r {
            Ok(p) => raw_device(*volume) == Ok::<Seq<char>, RawOpenError>(p@),
            Err(e) => raw_device(*volume) == Err::<Seq<char>, RawOpenError>(e),
        },
{
    if select_backend(volume, true) != BackendKind::Ntfs {
        return Err(RawOpenError::NotEligible);
    }
    match &volume.drive_letter {
        Some(d) => {
            let cs = chars_of(d.as_str());
            if cs.len() == 2 && (('A' <= cs[0] && cs[0] <= 'Z') || ('a' <= cs[0] && cs[0] <= 'z'))
                && cs[1] == ':' {
                let mut out = chars_of("\\\\.\\");
                out.push(cs[0]);
                out.push(':');
                assert(out@ =~= "\\\\.\\"@ + seq![d@[0], ':']);
                Ok(string_of(out.as_slice()))
            } else {
                Err(RawOpenError::NoValidatedDriveLetter)
            }
        },
        None => Err(RawOpenError::NoValidatedDriveLetter),
    }
}

/// What one journal synchronisation did.
#[derive(Clone, Copy, Debug, PartialEq, Eq, Structural)]
pub struct SyncStats {
    pub records: u64,
    pub rebuilt: bool,
}

impl SyncStats {
    /// Nothing read, nothing rebuilt.
    pub fn none() -> (r: Self)
        ensures
            r.records == 0 && !r.rebuilt,
    {
        SyncStats { records: 0, rebuilt: false }
    }
}

/// What a synchronisation does for a journal state.
#[derive(Clone, Copy, Debug, PartialEq, Eq, Structural)]
pub enum SyncPlan {
    /// The index is current: mark it ready.
    MarkReady,
    /// Read the journal from the saved cursor up to `target_usn`.
    CatchUp { target_usn: i64 },
    /// Enumerate the MFT into a new generation.
    Rebuild,
}

pub open spec fn sync_plan_for(continuity: JournalContinuity, journal_next_usn: i64) -> SyncPlan {
    match continuity {
        JournalContinuity::Current => SyncPlan::MarkReady,
        JournalContinuity::CatchUp => SyncPlan::CatchUp { target_usn: journal_next_usn },
        JournalContinuity::Rebuild(_) => SyncPlan::Rebuild,
    }
}

pub fn sync_plan(continuity: JournalContinuity, journal_next_usn: i64) -> (r: SyncPlan)
    ensures
        r == sync_plan_for(continuity, journal_next_usn),
{
    match continuity {
        JournalContinuity::Current => SyncPlan::MarkReady,
        JournalContinuity::CatchUp => SyncPlan::CatchUp { target_usn: journal_next_usn },
        JournalContinuity::Rebuild(_) => SyncPlan::Rebuild,
    }
}

/// The next move of a journal catch-up after one read.
#[derive(Clone, Copy, Debug, PartialEq, Eq, Structural)]
pub enum CatchUpStep {
    /// The journal answered with a cursor behind the one asked for.
    Regressed,
    /// Apply the batch, then stop: the cursor did not move.
    Stalled,
    /// Apply the batch and go on from this cursor.
    Advance(i64),
}

/// Judges a read that started at `cursor` and returned `batch_next_usn`.
pub fn catch_up_step(cursor: i64, batch_next_usn: i64) -> (r: CatchUpStep)
    ensures
        batch_next_usn < cursor ==> r == CatchUpStep::Regressed,
        batch_next_usn == cursor ==> r == CatchUpStep::Stalled,
        batch_next_usn > cursor ==> r == CatchUpStep::Advance(batch_next_usn),
{
    if batch_next_usn < cursor {
        CatchUpStep::Regressed
    } else if batch_next_usn == cursor {
        CatchUpStep::Stalled
    } else {
        CatchUpStep::Advance(batch_next_usn)
    }
}

} // verus!
