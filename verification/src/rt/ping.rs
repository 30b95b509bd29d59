//! The test application: answers ticks, and injects faults on request.
use vstd::prelude::*;

use crate::rt::identity::{number_of, parse_u64, var_text};

verus! {

/// What the test application does in a tick.
#[derive(Debug, Clone, Copy, PartialEq, Eq, Structural)]
pub enum PingAction {
    /// Opens a socket, which the filter of system calls forbids.
    OpenSocket,
    Panic,
    /// Asks for a frame.
    MarkDirty,
    Exit,
}

/// What the test application does in tick number `ticks`: after a panic or an
/// exit nothing follows.
pub open spec fn ping_actions(
    ticks: u64,
    limit: Option<Seq<char>>,
    socket: bool,
    panic: bool,
) -> Seq<PingAction> {
    let first = if socket {
        seq![PingAction::OpenSocket]
    } else {
        seq![]
    };
    if panic && ticks == 1 {
        first.push(PingAction::Panic)
    } else if (limit matches Some(t) && (number_of(t) matches Some(n) && ticks >= n)) {
        first.push(PingAction::MarkDirty).push(PingAction::Exit)
    } else {
        first.push(PingAction::MarkDirty)
    }
}

/// What the test application does in a tick. `limit` is the text of the tick
/// limit, if there is one.
pub fn ping_loop(ticks: u64, limit: &Option<String>, socket: bool, panic: bool) -> (r: Vec<
    PingAction,
>)
    ensures
        r@ == ping_actions(ticks, var_text(*limit), socket, panic),
{
    let n: Option<u64> = match limit {
        Some(s) => parse_u64(s.as_str()),
        None => None,
    };
    let mut out: Vec<PingAction> = Vec::new();
    if socket {
        out.push(PingAction::OpenSocket);
    }
    assert(out@ =~= (if socket {
        seq![PingAction::OpenSocket]
    } else {
        seq![]
    }));
    if panic && ticks == 1 {
        out.push(PingAction::Panic);
        return out;
    }
    out.push(PingAction::MarkDirty);
    match n {
        Some(n) => {
            if ticks >= n {
                out.push(PingAction::Exit);
            }
        },
        None => {},
    }
    out
}

} // verus!
