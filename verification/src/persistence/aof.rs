use vstd::prelude::*;

use crate::clock::now_nanos;
use crate::command::{execute_spec, from_frame_spec, Command};
use crate::protocol::parser::{decode_frame, decode_spec, Decoded, ProtocolError, Step};
use crate::storage::table::EntryView;
use crate::storage::MemoryStore;
use vstd::slice::slice_subrange;

verus! {

/// Replaying the frames of an append-only file, whose remaining content is
/// `s`, on the store `m` at time `now`: each frame that is a command runs,
/// any other frame is skipped. Gives the store after, and the number of
/// commands that ran, or the error that stopped the reading.
pub open spec fn replay_spec(s: Seq<u8>, m: Map<Seq<char>, EntryView>, now: int) -> (Map<
    Seq<char>,
    EntryView,
>, Result<nat, ProtocolError>)
    decreases s.len(),
{
    match decode_spec(s, true) {
        Step::Done(f, k) => if 1 <= k <= s.len() {
            let (m1, ran) = match from_frame_spec(f) {
                Ok(c) => (execute_spec(c, m, now).0, 1nat),
                Err(_) => (m, 0nat),
            };
            let (m2, r) = replay_spec(s.skip(k), m1, now);
            (
                m2,
                match r {
                    Ok(n) => Ok(n + ran),
                    Err(e) => Err(e),
                },
            )
        } else {
            // Never taken: a frame takes at least one byte and at most all of them.
            (m, Ok(0))
        },
        Step::Failed(e) => (m, Err(e)),
        // The end of the file (at its end the reader never asks for more).
        _ => (m, Ok(0)),
    }
}

pub open spec fn count_result(r: Result<usize, ProtocolError>) -> Result<nat, ProtocolError> {
    match r {
        Ok(n) => Ok(n as nat),
        Err(e) => Err(e),
    }
}

spec fn add_ran(r: Result<nat, ProtocolError>, n: nat) -> Result<nat, ProtocolError> {
    match r {
        Ok(m) => Ok(m + n),
        Err(e) => Err(e),
    }
}

/// Replays the content of an append-only file on `store` at time `now`.
pub fn replay_at(content: &[u8], store: &mut MemoryStore, now: i128) -> (r: Result<
    usize,
    ProtocolError,
>)
    ensures
        (final(store)@, count_result(r)) == replay_spec(content@, old(store)@, now as int),
{
    let mut pos: usize = 0;
    let mut count: usize = 0;
    assert(content@.skip(0) =~= content@);
    loop
        invariant
            pos <= content.len(),
            count <= pos,
            ({
                let (m2, r2) = replay_spec(content@.skip(pos as int), store@, now as int);
                (m2, add_ran(r2, count as nat)) == replay_spec(content@, old(store)@, now as int)
            }),
        decreases content.len() - pos,
    {
        let ghost before = store@;
        let rest = slice_subrange(content, pos, content.len());
        assert(rest@ =~= content@.skip(pos as int));
        match decode_frame(rest, true) {
            Ok(Decoded::Frame(frame, k)) => {
                proof {
                    assert(content@.skip(pos as int).skip(k as int) =~= content@.skip(pos + k));
                }
                let ghost fv = frame@;
                let ran: usize = match Command::from_frame(frame) {
                    Ok(command) => {
                        command.execute_at(store, now);
                        1
                    },
                    Err(_) => 0,
                };
                proof {
                    let (m2, r2) = replay_spec(content@.skip(pos + k), store@, now as int);
                    assert(replay_spec(content@.skip(pos as int), before, now as int) == (
                        m2,
                        add_ran(r2, ran as nat),
                    ));
                    assert(add_ran(add_ran(r2, ran as nat), count as nat) == add_ran(
                        r2,
                        (count + ran) as nat,
                    ));
                }
                count = count + ran;
                pos = pos + k;
            },
            Ok(_) => {
                return Ok(count);
            },
            Err(e) => {
                return Err(e);
            },
        }
    }
}

/// Replays the content of an append-only file on `store`.
pub fn replay(content: &[u8], store: &mut MemoryStore) -> (r: Result<usize, ProtocolError>)
    ensures
        exists|now: i128|
            #![trigger replay_spec(content@, old(store)@, now as int)]
            (final(store)@, count_result(r)) == replay_spec(content@, old(store)@, now as int),
{
    let now = now_nanos();
    replay_at(content, store, now)
}

} // verus!
