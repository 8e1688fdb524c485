//! The reversible claim on an installed Start-menu provider (StartAllBack):
//! which provider builds are claimed, the journal that records the setting
//! to put back, what a restore does with it, and the command line of the
//! crash-recovery watchdog. The registry and process work is the caller's.

use vstd::prelude::*;
use crate::text::{chars_of, concat, decimal_nat, format_u64, str_eq, string_of};

verus! {

/// `WinkeyFunction` value that makes the provider consume a standalone Win.
pub const DO_NOTHING: u32 = 2;

/// The journal format written by this launcher.
pub const JOURNAL_VERSION: u32 = 2;

pub const WATCHDOG_ARGUMENT: &'static str = "--prism-start-restore-watchdog";
pub const RESTORE_ARGUMENT: &'static str = "--prism-restore-start-menu";

/// Every build of the provider's version 3 line keeps the semantics the
/// claim relies on.
pub open spec fn provider_supported(version: (u16, u16, u16, u16)) -> bool {
    version.0 == 3
}

pub fn supported_provider_version(version: (u16, u16, u16, u16)) -> (r: bool)
    ensures
        r == provider_supported(version),
{
    version.0 == 3
}

/// What the provider's setting was before the claim.
#[derive(Clone, Copy, Debug, PartialEq, Eq, Structural)]
pub struct RestoreJournal {
    pub version: u32,
    pub token: u64,
    pub value_existed: bool,
    pub value: u32,
}

/// The journal to write before claiming the provider, given its current
/// setting; nothing when the setting already consumes Win.
pub fn claim_journal(original: Option<u32>, token: u64) -> (r: Option<RestoreJournal>)
    ensures
        original == Some(DO_NOTHING) ==> r is None,
        original != Some(DO_NOTHING) ==> r == Some(
            RestoreJournal {
                version: JOURNAL_VERSION,
                token,
                value_existed: original is Some,
                value: match original {
                    Some(v) => v,
                    None => 0,
                },
            },
        ),
{
    match original {
        Some(v) => if v == DO_NOTHING {
            None
        } else {
            Some(RestoreJournal { version: JOURNAL_VERSION, token, value_existed: true, value: v })
        },
        None => Some(RestoreJournal { version: JOURNAL_VERSION, token, value_existed: false, value: 0 }),
    }
}

/// The setting a journal puts back: its value, or no value at all.
pub open spec fn restored_setting(journal: RestoreJournal) -> Option<u32> {
    if journal.value_existed {
        Some(journal.value)
    } else {
        None
    }
}

pub fn setting_to_restore(journal: RestoreJournal) -> (r: Option<u32>)
    ensures
        r == restored_setting(journal),
{
    if journal.value_existed {
        Some(journal.value)
    } else {
        None
    }
}

/// What restoring from a journal does.
#[derive(Clone, Copy, Debug, PartialEq, Eq, Structural)]
pub enum RestoreStep {
    /// The journal is from another format: refuse and keep it.
    Unsupported,
    /// The provider is gone: only retire the journal.
    RetireJournal,
    /// Put the recorded setting back (`None` removes the value), tell the
    /// provider, then retire the journal.
    Restore(Option<u32>),
    /// Someone changed the setting meanwhile: keep their choice and retire
    /// the journal.
    KeepCurrent,
}

/// Only the value the launcher itself installed is undone.
pub open spec fn restore_step_of(journal: RestoreJournal, current: Option<Option<u32>>) -> RestoreStep {
    if journal.version != JOURNAL_VERSION {
        RestoreStep::Unsupported
    } else {
        match current {
            None => RestoreStep::RetireJournal,
            Some(value) => if value == Some(DO_NOTHING) {
                RestoreStep::Restore(restored_setting(journal))
            } else {
                RestoreStep::KeepCurrent
            },
        }
    }
}

/// `current` is the provider's setting now, or `None` when its registry
/// key no longer exists.
pub fn restore_step(journal: RestoreJournal, current: Option<Option<u32>>) -> (r: RestoreStep)
    ensures
        r == restore_step_of(journal, current),
{
    if journal.version != JOURNAL_VERSION {
        return RestoreStep::Unsupported;
    }
    match current {
        None => RestoreStep::RetireJournal,
        Some(value) => {
            let claimed = match value {
                Some(v) => v == DO_NOTHING,
                None => false,
            };
            if claimed {
                RestoreStep::Restore(setting_to_restore(journal))
            } else {
                RestoreStep::KeepCurrent
            }
        },
    }
}

/// Claiming and then restoring gives the provider back exactly the setting
/// it had, including having none.
pub proof fn law_claim_then_restore_is_exact(original: Option<u32>, token: u64)
    requires
        original != Some(DO_NOTHING),
    ensures
        ({
            let journal = RestoreJournal {
                version: JOURNAL_VERSION,
                token,
                value_existed: original is Some,
                value: match original {
                    Some(v) => v,
                    None => 0,
                },
            };
            restore_step_of(journal, Some(Some(DO_NOTHING))) == RestoreStep::Restore(original)
        }),
{
}

/// The journal belongs to the watchdog holding `token`.
pub fn journal_has_token(journal: Option<RestoreJournal>, token: u64) -> (r: bool)
    ensures
        r == (journal matches Some(j) && j.version == JOURNAL_VERSION && j.token == token),
{
    match journal {
        Some(j) => j.version == JOURNAL_VERSION && j.token == token,
        None => false,
    }
}

/// A journal token: the time in nanoseconds (its low 64 bits) mixed with
/// the process id in the high half.
pub fn journal_token(nanos: u64, process_id: u32) -> (r: u64)
    ensures
        r == nanos ^ ((process_id as u64) << 32u64),
{
    nanos ^ ((process_id as u64) << 32u64)
}

// ---------------------------------------------------------------------------
// The watchdog's command line
// ---------------------------------------------------------------------------

pub open spec fn is_digit(c: char) -> bool {
    '0' <= c <= '9'
}

/// The number the decimal digits `s` spell.
pub open spec fn digits_value(s: Seq<char>) -> nat
    decreases s.len(),
{
    if s.len() == 0 {
        0
    } else {
        digits_value(s.drop_last()) * 10 + (s.last() as nat - '0' as nat) as nat
    }
}

/// The digits of an unsigned number's text: without its optional `+`.
pub open spec fn unsigned_body(text: Seq<char>) -> Seq<char> {
    if text.len() > 0 && text[0] == '+' {
        text.drop_first()
    } else {
        text
    }
}

pub open spec fn all_digits(s: Seq<char>) -> bool {
    forall|i: int| 0 <= i < s.len() ==> #[trigger] is_digit(s[i])
}

/// What `str::parse` gives for an unsigned integer type whose values lie
/// below `bound`: an optional `+` followed by at least one digit, naming a
/// value below the bound.
pub open spec fn parsed_unsigned(text: Seq<char>, bound: nat) -> Option<nat> {
    let body = unsigned_body(text);
    if body.len() > 0 && all_digits(body) && digits_value(body) < bound {
        Some(digits_value(body))
    } else {
        None
    }
}

proof fn lemma_digits_value_grows(s: Seq<char>, j: int)
    requires
        0 <= j <= s.len(),
        all_digits(s),
    ensures
        digits_value(s.take(j)) <= digits_value(s),
    decreases s.len() - j,
{
    if j < s.len() {
        lemma_digits_value_grows(s, j + 1);
        assert(s.take(j + 1).drop_last() =~= s.take(j));
    } else {
        assert(s.take(j) =~= s);
    }
}

/// `str::parse` for an unsigned integer type whose values lie below `bound`.
pub fn parse_unsigned(text: &str, bound: u128) -> (r: Option<u128>)
    requires
        bound <= 0x1_0000_0000_0000_0000,
    ensures
        match parsed_unsigned(text@, bound as nat) {
            Some(n) => r == Some(n as u128),
            None => r is None,
        },
{
    let cs = chars_of(text);
    let n = cs.len();
    let start: usize = if n > 0 && cs[0] == '+' {
        1
    } else {
        0
    };
    let ghost body = unsigned_body(text@);
    assert(body =~= cs@.skip(start as int));
    if start >= n || bound == 0 {
        return None;
    }
    let mut value: u128 = 0;
    let mut i: usize = start;
    assert(body.take(0) =~= Seq::<char>::empty());
    while i < n
        invariant
            start <= i <= n,
            n == cs@.len(),
            cs@ == text@,
            bound <= 0x1_0000_0000_0000_0000,
            body == cs@.skip(start as int),
            body == unsigned_body(text@),
            forall|k: int| 0 <= k < i - start ==> #[trigger] is_digit(body[k]),
            value == digits_value(body.take(i - start)),
            value < bound,
        decreases n - i,
    {
        let c = cs[i];
        assert(body[i - start] == c);
        if c < '0' || c > '9' {
            assert(!is_digit(body[i - start]));
            assert(!all_digits(body));
            return None;
        }
        let digit = (c as u32 - '0' as u32) as u128;
        assert(body.take(i - start + 1).drop_last() =~= body.take(i - start));
        assert(body.take(i - start + 1).last() == c);
        value = value * 10 + digit;
        if value >= bound {
            proof {
                if all_digits(body) {
                    lemma_digits_value_grows(body, i - start + 1);
                }
            }
            return None;
        }
        i += 1;
    }
    assert(body.take(n - start) =~= body);
    Some(value)
}

/// `str::parse::<u64>`.
fn parse_unsigned_full(text: &str) -> (r: Option<u64>)
    ensures
        match parsed_unsigned(text@, 0x1_0000_0000_0000_0000) {
            Some(n) => r == Some(n as u64),
            None => r is None,
        },
{
    match parse_unsigned(text, 0x1_0000_0000_0000_0000) {
        Some(v) => Some(v as u64),
        None => None,
    }
}

/// What a launch with these arguments (after the program name) is for.
#[derive(Debug)]
pub enum WatchdogRequest {
    /// An ordinary launch.
    Ordinary,
    /// Restore from the named journal now, when one is named, and exit.
    Restore(Option<String>),
    /// Watch the parent process and restore from the journal when it dies.
    Watch { parent_pid: u32, journal: String, token: u64 },
    /// A watchdog launch with missing or unreadable arguments: exit.
    Malformed,
}

/// Reads the recovery modes' command line: the restore argument with an
/// optional journal, or the watchdog argument with the parent's process
/// id, the journal and its token.
pub fn watchdog_request(args: &[String]) -> (r: WatchdogRequest)
    ensures
        args@.len() == 0 ==> r is Ordinary,
        args@.len() > 0 && args@[0]@ == RESTORE_ARGUMENT@ ==> match r {
            WatchdogRequest::Restore(j) => match j {
                Some(p) => args@.len() > 1 && p@ == args@[1]@,
                None => args@.len() <= 1,
            },
            _ => false,
        },
        args@.len() > 0 && args@[0]@ != RESTORE_ARGUMENT@ && args@[0]@ != WATCHDOG_ARGUMENT@
            ==> r is Ordinary,
        args@.len() > 0 && args@[0]@ == WATCHDOG_ARGUMENT@ && args@[0]@ != RESTORE_ARGUMENT@
            ==> match r {
            WatchdogRequest::Watch { parent_pid, journal, token } => {
                &&& args@.len() >= 4
                &&& parsed_unsigned(args@[1]@, 0x1_0000_0000) == Some(parent_pid as nat)
                &&& journal@ == args@[2]@
                &&& parsed_unsigned(args@[3]@, 0x1_0000_0000_0000_0000) == Some(token as nat)
            },
            WatchdogRequest::Malformed => args@.len() < 4 || parsed_unsigned(
                args@[1]@,
                0x1_0000_0000,
            ) is None || parsed_unsigned(args@[3]@, 0x1_0000_0000_0000_0000) is None,
            _ => false,
        },
{
    if args.len() == 0 {
        return WatchdogRequest::Ordinary;
    }
    let mode = args[0].as_str();
    if str_eq(mode, RESTORE_ARGUMENT) {
        if args.len() > 1 {
            return WatchdogRequest::Restore(Some(args[1].clone()));
        }
        return WatchdogRequest::Restore(None);
    }
    if !str_eq(mode, WATCHDOG_ARGUMENT) {
        return WatchdogRequest::Ordinary;
    }
    if args.len() < 2 {
        return WatchdogRequest::Malformed;
    }
    let parent_pid = match parse_u32(args[1].as_str()) {
        Some(v) => v,
        None => return WatchdogRequest::Malformed,
    };
    if args.len() < 3 {
        return WatchdogRequest::Malformed;
    }
    let journal = args[2].clone();
    if args.len() < 4 {
        return WatchdogRequest::Malformed;
    }
    let token = match parse_u64(args[3].as_str()) {
        Some(v) => v,
        None => return WatchdogRequest::Malformed,
    };
    WatchdogRequest::Watch { parent_pid, journal, token }
}

/// Whether a launch with these arguments is one of the recovery modes, in
/// which the process does its recovery work and exits.
pub fn run_start_restore_watchdog_if_requested(args: &[String]) -> (r: bool)
    ensures
        r == (args@.len() > 0 && (args@[0]@ == RESTORE_ARGUMENT@ || args@[0]@
            == WATCHDOG_ARGUMENT@)),
{
    args.len() > 0 && (str_eq(args[0].as_str(), RESTORE_ARGUMENT) || str_eq(
        args[0].as_str(),
        WATCHDOG_ARGUMENT,
    ))
}

/// `str::parse::<u32>`.
fn parse_u32(text: &str) -> (r: Option<u32>)
    ensures
        match parsed_unsigned(text@, 0x1_0000_0000) {
            Some(n) => r == Some(n as u32),
            None => r is None,
        },
{
    match parse_unsigned(text, 0x1_0000_0000) {
        Some(v) => Some(v as u32),
        None => None,
    }
}

/// `str::parse::<u64>`.
fn parse_u64(text: &str) -> (r: Option<u64>)
    ensures
        match parsed_unsigned(text@, 0x1_0000_0000_0000_0000) {
            Some(n) => r == Some(n as u64),
            None => r is None,
        },
{
    parse_unsigned_full(text)
}

/// What `str::parse::<i64>` gives: an optional sign followed by at least one
/// digit, naming a value that fits `i64`.
pub open spec fn parsed_i64(text: Seq<char>) -> Option<int> {
    if text.len() > 0 && text[0] == '-' {
        let body = text.drop_first();
        if body.len() > 0 && all_digits(body) && digits_value(body) <= 0x8000_0000_0000_0000 {
            Some(-digits_value(body))
        } else {
            None
        }
    } else {
        match parsed_unsigned(text, 0x8000_0000_0000_0000) {
            Some(n) => Some(n as int),
            None => None,
        }
    }
}

/// `str::parse::<i64>`.
pub fn parse_i64(text: &str) -> (r: Option<i64>)
    ensures
        match parsed_i64(text@) {
            Some(n) => r == Some(n as i64),
            None => r is None,
        },
{
    let cs = chars_of(text);
    if cs.len() > 0 && cs[0] == '-' {
        if cs.len() > 1 && cs[1] == '+' {
            proof {
                assert(!is_digit(text@.drop_first()[0]));
            }
            return None;
        }
        let rest = string_of(crate::text::slice_to_vec(cs.as_slice(), 1, cs.len()).as_slice());
        assert(rest@ =~= text@.drop_first());
        assert(unsigned_body(rest@) == rest@);
        match parse_unsigned(rest.as_str(), 0x8000_0000_0000_0001) {
            Some(v) => {
                if v == 0x8000_0000_0000_0000 {
                    Some(i64::MIN)
                } else {
                    Some(-(v as i64))
                }
            },
            None => None,
        }
    } else {
        match parse_unsigned(text, 0x8000_0000_0000_0000) {
            Some(v) => Some(v as i64),
            None => None,
        }
    }
}

} // verus!
