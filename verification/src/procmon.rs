//! The kernel's process events, and which of them matter.

use vstd::prelude::*;

verus! {

/// A process forked.
pub const FORK: u32 = 0x0000_0001;

/// A process started a new program.
pub const EXEC: u32 = 0x0000_0002;

/// A process changed its user.
pub const UID: u32 = 0x0000_0004;

/// A process ended with a code other than 0.
pub const NONZERO_EXIT: u32 = 0x2000_0000;

/// A process ended.
pub const EXIT: u32 = 0x8000_0000;

/// The events that are told apart.
#[derive(Debug, Clone, Copy, PartialEq, Eq, Structural)]
pub enum ProcEventKind {
    /// A process forked.
    Fork,
    /// A process started a new program.
    Exec,
    /// A process ended.
    Exit,
    /// Anything else.
    Other,
}

/// Why process events are not had.
#[derive(Debug, Clone, PartialEq, Eq)]
pub enum ProcMonError {
    /// The socket could not be opened; what the system said.
    Socket(String),
}

impl ProcMonError {
    /// What the error says.
    pub fn message(&self) -> (r: String)
        ensures
            r@ == "opening cn_proc netlink socket: "@ + self->Socket_0@,
    {
        match self {
            ProcMonError::Socket(m) => {
                let mut o: String = "opening cn_proc netlink socket: ".to_owned();
                o.append(m.as_str());
                o
            },
        }
    }
}

/// An event of this kind sets off a pass: a program begins or ends.
pub open spec fn sets_off(kind: ProcEventKind) -> bool {
    kind == ProcEventKind::Exec || kind == ProcEventKind::Exit
}

/// Whether an event sets a pass off: a game starts with a new program and ends
/// with a process.
pub fn is_trigger_kind(kind: ProcEventKind) -> (r: bool)
    ensures
        r == sets_off(kind),
{
    match kind {
        ProcEventKind::Exec => true,
        ProcEventKind::Exit => true,
        _ => false,
    }
}

/// The kind of an event, by the kernel's number for it.
pub open spec fn kind_of_what(what: u32) -> ProcEventKind {
    if what == FORK {
        ProcEventKind::Fork
    } else if what == EXEC {
        ProcEventKind::Exec
    } else if what == EXIT || what == NONZERO_EXIT {
        ProcEventKind::Exit
    } else {
        ProcEventKind::Other
    }
}

/// The kind of an event, by the kernel's number for it.
pub fn event_kind_from_what(what: u32) -> (r: ProcEventKind)
    ensures
        r == kind_of_what(what),
{
    if what == FORK {
        ProcEventKind::Fork
    } else if what == EXEC {
        ProcEventKind::Exec
    } else if what == EXIT || what == NONZERO_EXIT {
        ProcEventKind::Exit
    } else {
        ProcEventKind::Other
    }
}

// ── laws ───────────────────────────────────────────────────────────────────

/// The kernel's numbers that set off a pass are those of a program that begins and of one
/// that ends, and no others.
pub proof fn begin_and_end_set_off_a_pass(what: u32)
    ensures
        sets_off(kind_of_what(what)) <==> what == 0x2 || what == 0x8000_0000 || what == 0x2000_0000,
{
}

} // verus!
