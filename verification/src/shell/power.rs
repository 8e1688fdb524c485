//! The four power actions the palette offers, and how each is carried out:
//! locking and standby through their Windows calls, shutdown and restart
//! through `shutdown.exe` without forcing applications closed.

use vstd::prelude::*;
use crate::text::{append_chars, chars_of, concat, decimal, format_i64, string_of, str_eq};

verus! {

#[derive(Clone, Copy, Debug, PartialEq, Eq, Structural)]
pub enum PowerAction {
    Lock,
    Sleep,
    Shutdown,
    Restart,
}

/// Why a power request was refused.
#[derive(Debug)]
pub enum PowerError {
    /// Not one of `lock`, `sleep`, `shutdown`, `restart`.
    Unsupported(String),
}

impl PowerError {
    /// The message shown to the user.
    pub fn message(&self) -> (r: String)
        ensures
            self matches PowerError::Unsupported(v) ==> r@ == "unsupported power action '"@ + v@ + "'"@,
    {
        match self {
            PowerError::Unsupported(v) => {
                let head = concat("unsupported power action '", v.as_str());
                concat(head.as_str(), "'")
            },
        }
    }
}

pub open spec fn parsed_action(value: Seq<char>) -> Option<PowerAction> {
    if value == "lock"@ {
        Some(PowerAction::Lock)
    } else if value == "sleep"@ {
        Some(PowerAction::Sleep)
    } else if value == "shutdown"@ {
        Some(PowerAction::Shutdown)
    } else if value == "restart"@ {
        Some(PowerAction::Restart)
    } else {
        None
    }
}

pub open spec fn action_name(a: PowerAction) -> Seq<char> {
    match a {
        PowerAction::Lock => "lock"@,
        PowerAction::Sleep => "sleep"@,
        PowerAction::Shutdown => "shutdown"@,
        PowerAction::Restart => "restart"@,
    }
}

/// `shutdown.exe` arguments: shut down (`/s`) or restart (`/r`) now, as a
/// planned ("p:0:0") event, and never `/f`.
pub open spec fn shutdown_args(a: PowerAction) -> Option<Seq<&'static str>> {
    match a {
        PowerAction::Shutdown => Some(seq!["/s", "/t", "0", "/d", "p:0:0"]),
        PowerAction::Restart => Some(seq!["/r", "/t", "0", "/d", "p:0:0"]),
        _ => None,
    }
}

impl PowerAction {
    pub fn parse(value: &str) -> (r: Result<PowerAction, PowerError>)
        ensures
            match parsed_action(value@) {
                Some(a) => r matches Ok(b) && b == a,
                None => r matches Err(PowerError::Unsupported(v)) && v@ == value@,
            },
    {
        if str_eq(value, "lock") {
            Ok(PowerAction::Lock)
        } else if str_eq(value, "sleep") {
            Ok(PowerAction::Sleep)
        } else if str_eq(value, "shutdown") {
            Ok(PowerAction::Shutdown)
        } else if str_eq(value, "restart") {
            Ok(PowerAction::Restart)
        } else {
            Err(PowerError::Unsupported(value.to_owned()))
        }
    }

    pub fn name(self) -> (r: &'static str)
        ensures
            r@ == action_name(self),
    {
        match self {
            PowerAction::Lock => "lock",
            PowerAction::Sleep => "sleep",
            PowerAction::Shutdown => "shutdown",
            PowerAction::Restart => "restart",
        }
    }

    pub fn shutdown_arguments(self) -> (r: Option<[&'static str; 5]>)
        ensures
            match r {
                Some(args) => shutdown_args(self) == Some(args@),
                None => shutdown_args(self) is None,
            },
    {
        match self {
            PowerAction::Lock | PowerAction::Sleep => None,
            PowerAction::Shutdown => {
                let a = ["/s", "/t", "0", "/d", "p:0:0"];
                assert(a@ =~= seq!["/s", "/t", "0", "/d", "p:0:0"]);
                Some(a)
            },
            PowerAction::Restart => {
                let a = ["/r", "/t", "0", "/d", "p:0:0"];
                assert(a@ =~= seq!["/r", "/t", "0", "/d", "p:0:0"]);
                Some(a)
            },
        }
    }

    /// `SetSuspendState(hibernate, force, disable_wake_events)` for standby:
    /// no hibernation, no forcing, wake events kept.
    pub fn suspend_parameters(self) -> (r: Option<(bool, bool, bool)>)
        ensures
            self == PowerAction::Sleep ==> r == Some((false, false, false)),
            self != PowerAction::Sleep ==> r is None,
    {
        match self {
            PowerAction::Sleep => Some((false, false, false)),
            _ => None,
        }
    }
}

/// Every action's name parses back to it, and no shutdown command forces
/// applications closed.
pub proof fn lemma_power_actions(a: PowerAction)
    ensures
        parsed_action(action_name(a)) == Some(a),
        shutdown_args(a) matches Some(args) ==> !args.contains("/f"),
{
    reveal_strlit("lock");
    reveal_strlit("sleep");
    reveal_strlit("shutdown");
    reveal_strlit("restart");
    assert("sleep"@.len() != "lock"@.len());
    assert("shutdown"@.len() != "lock"@.len() && "shutdown"@.len() != "sleep"@.len());
    assert("restart"@.len() != "lock"@.len() && "restart"@.len() != "sleep"@.len() && "restart"@.len() != "shutdown"@.len());
    if let Some(args) = shutdown_args(a) {
        reveal_strlit("/f");
        reveal_strlit("/s");
        reveal_strlit("/r");
        reveal_strlit("/t");
        reveal_strlit("0");
        reveal_strlit("/d");
        reveal_strlit("p:0:0");
        assert("/s"@[1] != "/f"@[1] && "/r"@[1] != "/f"@[1] && "/t"@[1] != "/f"@[1] && "/d"@[1]
            != "/f"@[1]);
        assert("0"@.len() != "/f"@.len() && "p:0:0"@.len() != "/f"@.len());
        assert forall|i: int| 0 <= i < args.len() implies args[i] != "/f" by {
            assert(args[i]@ != "/f"@);
        }
    }
}

/// What carrying out an action takes.
#[derive(Clone, Copy, Debug, PartialEq, Eq)]
pub enum PowerStep {
    LockWorkstation,
    /// `SetSuspendState` with these parameters, holding the shutdown
    /// privilege.
    Suspend(bool, bool, bool),
    /// `shutdown.exe` with these arguments.
    RunShutdown([&'static str; 5]),
}

pub fn power_step(action: PowerAction) -> (r: PowerStep)
    ensures
        action == PowerAction::Lock ==> r == PowerStep::LockWorkstation,
        action == PowerAction::Sleep ==> r == PowerStep::Suspend(false, false, false),
        (action == PowerAction::Shutdown || action == PowerAction::Restart) ==> (r matches PowerStep::RunShutdown(args) && shutdown_args(action) == Some(args@)),
{
    match action {
        PowerAction::Lock => PowerStep::LockWorkstation,
        PowerAction::Sleep => PowerStep::Suspend(false, false, false),
        _ => match action.shutdown_arguments() {
            Some(args) => PowerStep::RunShutdown(args),
            None => PowerStep::LockWorkstation,
        },
    }
}

/// The message for a shutdown or restart that `shutdown.exe` refused.
pub fn rejection_message(action: PowerAction, exit_code: Option<i32>) -> (r: String)
    ensures
        r@ == "Windows rejected the "@ + action_name(action) + " request (exit code "@ + match exit_code {
            Some(c) => decimal(c as int),
            None => "unknown"@,
        } + ")"@,
{
    let mut out = chars_of("Windows rejected the ");
    let name = chars_of(action.name());
    append_chars(&mut out, name.as_slice());
    let mid = chars_of(" request (exit code ");
    append_chars(&mut out, mid.as_slice());
    let code = match exit_code {
        Some(c) => format_i64(c as i64),
        None => "unknown".to_owned(),
    };
    let cc = chars_of(code.as_str());
    append_chars(&mut out, cc.as_slice());
    let close = chars_of(")");
    append_chars(&mut out, close.as_slice());
    string_of(out.as_slice())
}

} // verus!
