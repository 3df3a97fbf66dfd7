use vstd::prelude::*;

use crate::clock::now_nanos;
use crate::command::{
    error_reply, error_reply_spec, execute_spec, from_frame_spec, persist_failure_reply,
    persist_failure_spec, to_aof_frame_spec, Command, CommandError, CommandErrorView, CommandView,
};
use crate::persistence::laws::is_write;
use crate::storage::MemoryStore;
use crate::protocol::{Frame, FrameView};

verus! {

/// What the server does with a frame that a client sent.
pub enum Action {
    /// The frame is not a command: answer `reply`.
    Reject { error: CommandError, reply: Frame },
    /// Run the command and answer what it gives.
    Run(Command),
    /// Append `record` to the append-only file, then run the command; if the
    /// append fails, answer the persist failure instead.
    RecordAndRun { record: Frame, command: Command },
}

/// The model of an [`Action`].
pub enum ActionView {
    Reject(CommandErrorView, FrameView),
    Run(CommandView),
    RecordAndRun(FrameView, CommandView),
}

pub open spec fn action_view(a: Action) -> ActionView {
    match a {
        Action::Reject { error, reply } => ActionView::Reject(error@, reply@),
        Action::Run(c) => ActionView::Run(c@),
        Action::RecordAndRun { record, command } => ActionView::RecordAndRun(record@, command@),
    }
}

/// What to do with a frame at time `now`, when an append-only file is kept
/// (`recording`) or not.
pub open spec fn plan_spec(f: FrameView, recording: bool, now: int) -> ActionView {
    match from_frame_spec(f) {
        Err(e) => ActionView::Reject(e, error_reply_spec(e)),
        Ok(c) => match to_aof_frame_spec(c, now) {
            Some(record) => if recording {
                ActionView::RecordAndRun(record, c)
            } else {
                ActionView::Run(c)
            },
            None => ActionView::Run(c),
        },
    }
}

/// What to do with a frame at time `now`.
pub fn plan_at(frame: Frame, recording: bool, now: i128) -> (a: Action)
    ensures
        action_view(a) == plan_spec(frame@, recording, now as int),
{
    match Command::from_frame(frame) {
        Err(error) => {
            let reply = error_reply(&error);
            Action::Reject { error, reply }
        },
        Ok(command) => {
            if recording {
                match command.to_aof_frame_at(now) {
                    Some(record) => Action::RecordAndRun { record, command },
                    None => Action::Run(command),
                }
            } else {
                Action::Run(command)
            }
        },
    }
}

/// What to do with a frame now.
pub fn plan(frame: Frame, recording: bool) -> (a: Action)
    ensures
        exists|now: i128|
            #![trigger plan_spec(frame@, recording, now as int)]
            action_view(a) == plan_spec(frame@, recording, now as int),
{
    let now = now_nanos();
    plan_at(frame, recording, now)
}

/// With an append-only file kept (`recording`), every command that changes
/// the store (`SET`, `DEL`, `EXPIRE`, `EXPIREAT`, `PERSIST`) is recorded before
/// it runs, with the record that the command gives at that time; any other
/// command, and every command when no file is kept, just runs; and a frame
/// that is no command is rejected with its error and the reply for it.
pub proof fn law_plan_records_every_write(f: FrameView, recording: bool, now: int)
    ensures
        from_frame_spec(f) matches Ok(c) ==> plan_spec(f, recording, now) == if recording && is_write(
            c,
        ) {
            ActionView::RecordAndRun(to_aof_frame_spec(c, now)->Some_0, c)
        } else {
            ActionView::Run(c)
        },
        from_frame_spec(f) matches Err(e) ==> plan_spec(f, recording, now) == ActionView::Reject(
            e,
            error_reply_spec(e),
        ),
{
}

/// The answer to a command that was to be recorded, once the append to the
/// append-only file has succeeded (`appended`) or failed, at time `now`: the
/// command runs only if it was recorded; otherwise the store is left alone
/// and the persist failure is answered.
pub fn finish_recorded_at(appended: bool, command: Command, store: &mut MemoryStore, now: i128) -> (r: Frame)
    ensures
        appended ==> (final(store)@, r@) == execute_spec(command@, old(store)@, now as int),
        !appended ==> final(store)@ == old(store)@ && r@ == persist_failure_spec(),
{
    if appended {
        command.execute_at(store, now)
    } else {
        persist_failure_reply()
    }
}

/// The answer to a command that was to be recorded, once the append to the
/// append-only file has succeeded (`appended`) or failed; the command runs
/// now, and only if it was recorded.
pub fn finish_recorded(appended: bool, command: Command, store: &mut MemoryStore) -> (r: Frame)
    ensures
        appended ==> exists|now: i128|
            #![trigger execute_spec(command@, old(store)@, now as int)]
            (final(store)@, r@) == execute_spec(command@, old(store)@, now as int),
        !appended ==> final(store)@ == old(store)@ && r@ == persist_failure_spec(),
{
    if appended {
        command.execute(store)
    } else {
        persist_failure_reply()
    }
}

} // verus!
