//! The supervisor's reading of the status channel: a run is over at its first
//! terminal message, and a channel that closes before one was abandoned.
use vstd::prelude::*;

use crate::ipc::StatusMessage;
use crate::worker::ends_once;

verus! {

/// Where a run stands, by the messages received so far.
#[derive(Debug, Clone, Copy, PartialEq, Eq)]
pub enum RunState {
    /// No terminal message yet and the channel is open.
    Running,
    /// The message at index `at` ended the run; anything after it is ignored.
    Ended { at: usize },
    /// The channel closed before any terminal message.
    Abandoned,
}

/// None of the first `n` messages ends a run.
pub open spec fn no_terminal_before(msgs: Seq<StatusMessage>, n: int) -> bool {
    forall|i: int| 0 <= i < n ==> !(#[trigger] msgs[i]).terminal()
}

/// A supervisor that reads the whole stream of a worker run sees the run end
/// at its last message, and at no earlier one: of the messages that
/// `WorkerPlan::run` sends, the terminal one is last and unique.
pub proof fn lemma_run_ends_at_last(msgs: Seq<StatusMessage>, at: int)
    requires
        ends_once(msgs),
        0 <= at < msgs.len(),
        msgs[at].terminal(),
        no_terminal_before(msgs, at),
    ensures
        at == msgs.len() - 1,
        no_terminal_before(msgs, msgs.len() - 1),
        msgs.last().terminal(),
{
    if at < msgs.len() - 1 {
        assert(!msgs[at].terminal());
    }
}

/// Classifies the messages received so far; `closed` tells whether the
/// channel has been closed by the worker.
pub fn run_state(msgs: &Vec<StatusMessage>, closed: bool) -> (r: RunState)
    ensures
        match r {
            RunState::Ended { at } => {
                &&& at < msgs.len()
                &&& msgs@[at as int].terminal()
                &&& no_terminal_before(msgs@, at as int)
            },
            RunState::Running => !closed && no_terminal_before(msgs@, msgs.len() as int),
            RunState::Abandoned => closed && no_terminal_before(msgs@, msgs.len() as int),
        },
{
    let mut i: usize = 0;
    while i < msgs.len()
        invariant
            i <= msgs.len(),
            no_terminal_before(msgs@, i as int),
        decreases msgs.len() - i,
    {
        if msgs[i].is_terminal() {
            return RunState::Ended { at: i };
        }
        i += 1;
    }
    if closed {
        RunState::Abandoned
    } else {
        RunState::Running
    }
}

} // verus!
