use vstd::prelude::*;
use vstd::utf8::{
    decode_utf8, encode_utf8, encode_utf8_decode_utf8, encode_utf8_valid_utf8,
    is_ascii_chars, is_ascii_chars_encode_utf8, valid_utf8,
};

use crate::command::{
    execute_spec,
    bulk_args, bulk_text, del_name, dispatch_spec, expiration_deadline_spec, expireat_name,
    from_frame_spec, keys_arg, persist_name, set_name, text_arg, to_aof_frame_spec, u64_arg,
    CommandErrorView, CommandView,
};
use crate::protocol::encoder::encode_spec;
use crate::protocol::number::decimal;
use crate::protocol::parser::{decode_spec, ProtocolError, Step};
use crate::protocol::roundtrip::{lemma_decode_encode, lemma_parse_decimal, replayable};
use crate::protocol::FrameView;
use crate::persistence::aof::replay_spec;
use crate::storage::table::EntryView;
use crate::storage::{deadline_after, MAX_TIME_NANOS, NANOS_PER_SECOND};
use crate::text::ascii_upper_bytes;

verus! {

/// The command as the append-only file records it: a relative expiration
/// becomes the absolute one, in whole seconds rounded up.
pub open spec fn recorded_command(c: CommandView, now: int) -> CommandView {
    match c {
        CommandView::Expire { key, seconds } => CommandView::ExpireAt {
            key,
            unix_seconds: expiration_deadline_spec(seconds as int, now) as u64,
        },
        other => other,
    }
}

/// Whether the command changes the store, and so is recorded.
pub open spec fn is_write(c: CommandView) -> bool {
    ||| c is SetValue
    ||| c is Del
    ||| c is Expire
    ||| c is ExpireAt
    ||| c is Persist
}

/// The sizes that the record of a command must keep to for the reader to
/// accept it: keys and values within the lengths that a bulk header can
/// announce, and at least one key, as `DEL` asks for.
pub open spec fn recordable(c: CommandView) -> bool {
    match c {
        CommandView::SetValue { key, value } => encode_utf8(key).len() <= i64::MAX && value.len()
            <= i64::MAX,
        CommandView::Del { keys } => 0 < keys.len() < usize::MAX && forall|i: int|
            0 <= i < keys.len() ==> encode_utf8(#[trigger] keys[i]).len() <= i64::MAX,
        CommandView::Expire { key, .. } => encode_utf8(key).len() <= i64::MAX,
        CommandView::ExpireAt { key, .. } => encode_utf8(key).len() <= i64::MAX,
        CommandView::Persist { key } => encode_utf8(key).len() <= i64::MAX,
        _ => true,
    }
}

proof fn lemma_ascii_text(s: Seq<u8>)
    requires
        forall|i: int| 0 <= i < s.len() ==> #[trigger] s[i] < 128,
    ensures
        valid_utf8(s),
{
    let chars = s.map_values(|b: u8| b as char);
    assert(is_ascii_chars(chars));
    is_ascii_chars_encode_utf8(chars);
    assert(encode_utf8(chars) =~= s);
    encode_utf8_valid_utf8(chars);
}

proof fn lemma_text_arg(k: Seq<char>)
    ensures
        text_arg(encode_utf8(k)) == Ok::<Seq<char>, CommandErrorView>(k),
{
    encode_utf8_valid_utf8(k);
    encode_utf8_decode_utf8(k);
}

proof fn lemma_deadline_fits(seconds: int, now: int)
    requires
        0 <= seconds,
        now <= MAX_TIME_NANOS,
    ensures
        0 <= expiration_deadline_spec(seconds, now) <= u64::MAX,
{
    let t = deadline_after(now, seconds);
    assert(t <= MAX_TIME_NANOS);
    if t >= 0 {
        assert(t / 1000000000 <= 9223372036854775807) by (nonlinear_arith)
            requires
                0 <= t <= 9223372036854775807999999999int,
        ;
        assert(t / 1000000000 >= 0) by (nonlinear_arith)
            requires
                0 <= t,
        ;
    }
}

pub(crate) proof fn lemma_u64_arg(n: nat)
    requires
        n <= u64::MAX,
    ensures
        u64_arg(decimal(n)) == Ok::<u64, CommandErrorView>(n as u64),
{
    lemma_parse_decimal(n);
    crate::protocol::number::lemma_decimal_digits(n);
    assert forall|i: int| 0 <= i < decimal(n).len() implies #[trigger] decimal(n)[i] < 128 by {
        assert(48 <= decimal(n)[i] <= 57);
    }
    lemma_ascii_text(decimal(n));
}

pub(crate) proof fn lemma_name(name: Seq<u8>)
    requires
        forall|i: int| 0 <= i < name.len() ==> 65 <= #[trigger] name[i] <= 90,
    ensures
        valid_utf8(name),
        ascii_upper_bytes(name) == name,
{
    assert forall|i: int| 0 <= i < name.len() implies #[trigger] name[i] < 128 by {}
    lemma_ascii_text(name);
    assert(ascii_upper_bytes(name) =~= name);
}

proof fn lemma_args(items: Seq<FrameView>, args: Seq<Seq<u8>>)
    requires
        items.len() == args.len(),
        forall|i: int| 0 <= i < items.len() ==> #[trigger] items[i] == FrameView::Bulk(args[i]),
    ensures
        bulk_args(items) == Some(args),
{
    assert(items.map_values(|f: FrameView| f->Bulk_0) =~= args);
}


proof fn lemma_decimal_len(n: nat)
    ensures
        decimal(n).len() <= n / 10 + 1,
    decreases n,
{
    if n >= 10 {
        lemma_decimal_len(n / 10);
        assert((n / 10) / 10 + 1 <= n / 10) by (nonlinear_arith)
            requires
                n >= 10,
        ;
    }
}

proof fn lemma_replays_set(key: Seq<char>, value: Seq<u8>, now: int, rest: Seq<u8>, at_eof: bool)
    requires
        recordable(CommandView::SetValue { key, value }),
    ensures
        ({
            let c = CommandView::SetValue { key, value };
            let f = to_aof_frame_spec(c, now)->Some_0;
            &&& replayable(f)
            &&& decode_spec(encode_spec(f) + rest, at_eof) == Step::Done(f, encode_spec(f).len() as int)
            &&& from_frame_spec(f) == Ok::<CommandView, CommandErrorView>(recorded_command(c, now))
        }),
{
    let c = CommandView::SetValue { key, value };
    let f = to_aof_frame_spec(c, now)->Some_0;
    let items = f->Array_0;
    lemma_name(set_name());
    lemma_text_arg(key);
    assert(replayable(f)) by {
        assert(replayable(items[0]));
        assert(replayable(items[1]));
        assert(replayable(items[2]));
    }
    lemma_decode_encode(f, rest, at_eof);
    let args = seq![set_name(), encode_utf8(key), value];
    lemma_args(items, args);
    assert(args.skip(1) =~= seq![encode_utf8(key), value]);
    assert(dispatch_spec(set_name(), decode_utf8(set_name()), args.skip(1)) == Ok::<
        CommandView,
        CommandErrorView,
    >(c));
}

proof fn lemma_replays_del(keys: Seq<Seq<char>>, now: int, rest: Seq<u8>, at_eof: bool)
    requires
        recordable(CommandView::Del { keys }),
    ensures
        ({
            let c = CommandView::Del { keys };
            let f = to_aof_frame_spec(c, now)->Some_0;
            &&& replayable(f)
            &&& decode_spec(encode_spec(f) + rest, at_eof) == Step::Done(f, encode_spec(f).len() as int)
            &&& from_frame_spec(f) == Ok::<CommandView, CommandErrorView>(recorded_command(c, now))
        }),
{
    let c = CommandView::Del { keys };
    let f = to_aof_frame_spec(c, now)->Some_0;
    let items = f->Array_0;
    let encoded = keys.map_values(|k: Seq<char>| encode_utf8(k));
    lemma_name(del_name());
    assert(replayable(f)) by {
        assert forall|i: int| 0 <= i < items.len() implies replayable(#[trigger] items[i]) by {
            if i > 0 {
                assert(items[i] == bulk_text(keys[i - 1]));
            }
        }
    }
    lemma_decode_encode(f, rest, at_eof);
    let args = seq![del_name()] + encoded;
    assert forall|i: int| 0 <= i < items.len() implies #[trigger] items[i] == FrameView::Bulk(
        args[i],
    ) by {
        if i > 0 {
            assert(items[i] == bulk_text(keys[i - 1]));
        }
    }
    lemma_args(items, args);
    assert(args.skip(1) =~= encoded);
    assert forall|i: int| 0 <= i < encoded.len() implies valid_utf8(#[trigger] encoded[i]) by {
        encode_utf8_valid_utf8(keys[i]);
    }
    assert(encoded.map_values(|a: Seq<u8>| decode_utf8(a)) =~= keys) by {
        assert forall|i: int| 0 <= i < keys.len() implies encoded.map_values(
            |a: Seq<u8>| decode_utf8(a),
        )[i] == keys[i] by {
            encode_utf8_decode_utf8(keys[i]);
        }
    }
    assert(keys_arg(encoded) == Ok::<Seq<Seq<char>>, CommandErrorView>(keys));
    assert(dispatch_spec(del_name(), decode_utf8(del_name()), args.skip(1)) == Ok::<
        CommandView,
        CommandErrorView,
    >(c));
}

/// The record `EXPIREAT key unix_seconds` replays as itself.
proof fn lemma_replays_expire_at(key: Seq<char>, unix_seconds: u64, rest: Seq<u8>, at_eof: bool)
    requires
        encode_utf8(key).len() <= i64::MAX,
    ensures
        ({
            let f = FrameView::Array(
                seq![
                    FrameView::Bulk(expireat_name()),
                    bulk_text(key),
                    FrameView::Bulk(decimal(unix_seconds as nat)),
                ],
            );
            &&& replayable(f)
            &&& decode_spec(encode_spec(f) + rest, at_eof) == Step::Done(f, encode_spec(f).len() as int)
            &&& from_frame_spec(f) == Ok::<CommandView, CommandErrorView>(
                CommandView::ExpireAt { key, unix_seconds },
            )
        }),
{
    let f = FrameView::Array(
        seq![
            FrameView::Bulk(expireat_name()),
            bulk_text(key),
            FrameView::Bulk(decimal(unix_seconds as nat)),
        ],
    );
    let items = f->Array_0;
    lemma_name(expireat_name());
    lemma_text_arg(key);
    lemma_u64_arg(unix_seconds as nat);
    lemma_decimal_len(unix_seconds as nat);
    assert(replayable(f)) by {
        assert(replayable(items[0]));
        assert(replayable(items[1]));
        assert(replayable(items[2]));
    }
    lemma_decode_encode(f, rest, at_eof);
    let args = seq![expireat_name(), encode_utf8(key), decimal(unix_seconds as nat)];
    lemma_args(items, args);
    assert(args.skip(1) =~= seq![encode_utf8(key), decimal(unix_seconds as nat)]);
    assert(dispatch_spec(expireat_name(), decode_utf8(expireat_name()), args.skip(1)) == Ok::<
        CommandView,
        CommandErrorView,
    >(CommandView::ExpireAt { key, unix_seconds }));
}

proof fn lemma_replays_persist(key: Seq<char>, now: int, rest: Seq<u8>, at_eof: bool)
    requires
        recordable(CommandView::Persist { key }),
    ensures
        ({
            let c = CommandView::Persist { key };
            let f = to_aof_frame_spec(c, now)->Some_0;
            &&& replayable(f)
            &&& decode_spec(encode_spec(f) + rest, at_eof) == Step::Done(f, encode_spec(f).len() as int)
            &&& from_frame_spec(f) == Ok::<CommandView, CommandErrorView>(recorded_command(c, now))
        }),
{
    let c = CommandView::Persist { key };
    let f = to_aof_frame_spec(c, now)->Some_0;
    let items = f->Array_0;
    lemma_name(persist_name());
    lemma_text_arg(key);
    assert(replayable(f)) by {
        assert(replayable(items[0]));
        assert(replayable(items[1]));
    }
    lemma_decode_encode(f, rest, at_eof);
    let args = seq![persist_name(), encode_utf8(key)];
    lemma_args(items, args);
    assert(args.skip(1) =~= seq![encode_utf8(key)]);
    assert(dispatch_spec(persist_name(), decode_utf8(persist_name()), args.skip(1)) == Ok::<
        CommandView,
        CommandErrorView,
    >(c));
}

/// What the append-only file records of a command at time `now`: nothing
/// for a command that only reads; for one that changes the store, a frame
/// that the reader gives back whole, whatever follows it, and that parses as
/// the command again, with a relative expiration made absolute. Replaying the
/// file therefore runs the commands that were recorded.
pub proof fn law_recorded_command_replays(
    c: CommandView,
    now: int,
    rest: Seq<u8>,
    at_eof: bool,
)
    requires
        recordable(c),
        now <= MAX_TIME_NANOS,
    ensures
        (to_aof_frame_spec(c, now) is Some) == is_write(c),
        to_aof_frame_spec(c, now) matches Some(f) ==> {
            &&& replayable(f)
            &&& decode_spec(encode_spec(f) + rest, at_eof) == Step::Done(f, encode_spec(f).len() as int)
            &&& from_frame_spec(f) == Ok::<CommandView, CommandErrorView>(recorded_command(c, now))
        },
{
    match c {
        CommandView::SetValue { key, value } => lemma_replays_set(key, value, now, rest, at_eof),
        CommandView::Del { keys } => lemma_replays_del(keys, now, rest, at_eof),
        CommandView::Expire { key, seconds } => {
            let d = expiration_deadline_spec(seconds as int, now);
            lemma_deadline_fits(seconds as int, now);
            lemma_replays_expire_at(key, d as u64, rest, at_eof);
        },
        CommandView::ExpireAt { key, unix_seconds } => lemma_replays_expire_at(
            key,
            unix_seconds,
            rest,
            at_eof,
        ),
        CommandView::Persist { key } => lemma_replays_persist(key, now, rest, at_eof),
        _ => {},
    }
}


/// Replaying the record of a command that changes the store, at the time it
/// ran, runs that command once more: the store ends as running the recorded
/// command leaves it (the command itself, or for `EXPIRE` the `EXPIREAT` of
/// its deadline), and one command is counted.
pub proof fn law_replaying_a_record_reruns_it(c: CommandView, m: Map<Seq<char>, EntryView>, now: int)
    requires
        recordable(c),
        is_write(c),
        now <= MAX_TIME_NANOS,
    ensures
        replay_spec(encode_spec(to_aof_frame_spec(c, now)->Some_0), m, now) == (
            execute_spec(recorded_command(c, now), m, now).0,
            Ok::<nat, ProtocolError>(1nat),
        ),
{
    let f = to_aof_frame_spec(c, now)->Some_0;
    let e = encode_spec(f);
    law_recorded_command_replays(c, now, Seq::empty(), true);
    assert(e + Seq::<u8>::empty() =~= e);
    assert(e.len() >= 1);
    assert(e.skip(e.len() as int) =~= Seq::<u8>::empty());
    let m1 = execute_spec(recorded_command(c, now), m, now).0;
    assert(decode_spec(Seq::<u8>::empty(), true) == Step::End);
    assert(replay_spec(Seq::<u8>::empty(), m1, now) == (
        m1,
        Ok::<nat, ProtocolError>(0nat),
    ));
}


/// Replaying a file that starts with a frame written by the encoder runs
/// that frame first (if it is a command) and then replays the rest: the file
/// is replayed frame by frame, in the order in which the frames were appended.
pub proof fn law_replay_runs_frames_in_order(
    f: FrameView,
    rest: Seq<u8>,
    m: Map<Seq<char>, EntryView>,
    now: int,
)
    requires
        replayable(f),
    ensures
        ({
            let (m1, ran) = match from_frame_spec(f) {
                Ok(c) => (execute_spec(c, m, now).0, 1nat),
                Err(_) => (m, 0nat),
            };
            let (m2, r) = replay_spec(rest, m1, now);
            replay_spec(encode_spec(f) + rest, m, now) == (
                m2,
                match r {
                    Ok(n) => Ok::<nat, ProtocolError>(n + ran),
                    Err(e) => Err(e),
                },
            )
        }),
{
    let e = encode_spec(f);
    lemma_decode_encode(f, rest, true);
    assert(e.len() >= 1);
    assert((e + rest).skip(e.len() as int) =~= rest);
}

} // verus!
