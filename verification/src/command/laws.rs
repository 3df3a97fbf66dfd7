use vstd::prelude::*;

use super::{bulk_args, dispatch_spec, execute_spec, from_frame_spec, CommandErrorView, CommandView};
use crate::persistence::laws::{lemma_name, lemma_u64_arg};
use crate::protocol::number::decimal;
use crate::text::{ascii_upper_bytes, ascii_upper_char, lemma_upper_bytes_utf8};
use vstd::utf8::{decode_utf8, valid_utf8};
use crate::protocol::FrameView;
use crate::storage::laws::string_entry;
use crate::storage::table::EntryView;
use crate::storage::laws::{law_del_counts_live_keys, law_exists_counts_live_keys};
use crate::storage::{del_spec, exists_spec, live};

verus! {

/// `PING` answers `PONG`, `PING value` and `ECHO value` answer the value;
/// none of them touches the store.
pub proof fn law_ping_and_echo(m: Map<Seq<char>, EntryView>, v: Seq<u8>, now: int)
    ensures
        execute_spec(CommandView::Ping(None), m, now) == (m, FrameView::Simple("PONG"@)),
        execute_spec(CommandView::Ping(Some(v)), m, now) == (m, FrameView::Bulk(v)),
        execute_spec(CommandView::Echo(v), m, now) == (m, FrameView::Bulk(v)),
{
}

/// `SET key value` answers `OK`; a `GET key` after it, at any time, answers
/// the value.
pub proof fn law_set_then_get(
    m: Map<Seq<char>, EntryView>,
    key: Seq<char>,
    value: Seq<u8>,
    now: int,
    later: int,
)
    ensures
        ({
            let (m1, answer) = execute_spec(CommandView::SetValue { key, value }, m, now);
            &&& answer == FrameView::Simple("OK"@)
            &&& m1 == m.insert(key, string_entry(value))
            &&& execute_spec(CommandView::Get { key }, m1, later) == (m1, FrameView::Bulk(value))
        }),
{
}

/// `GET` of a key without a live entry answers null.
pub proof fn law_get_missing(m: Map<Seq<char>, EntryView>, key: Seq<char>, now: int)
    requires
        !live(m, key, now),
    ensures
        execute_spec(CommandView::Get { key }, m, now).1 == FrameView::Null,
{
}

/// `DEL` and `EXISTS` of a single key answer 1 when it holds a live entry, else 0.
pub proof fn law_single_key_counts(m: Map<Seq<char>, EntryView>, key: Seq<char>, now: int)
    ensures
        execute_spec(CommandView::Del { keys: seq![key] }, m, now).1 == FrameView::Integer(
            if live(m, key, now) {
                1
            } else {
                0
            },
        ),
        execute_spec(CommandView::Exists { keys: seq![key] }, m, now).1 == FrameView::Integer(
            if live(m, key, now) {
                1
            } else {
                0
            },
        ),
{
    assert(seq![key].drop_last() =~= Seq::<Seq<char>>::empty());
    assert(seq![key].last() == key);
    assert(del_spec(m, seq![key].drop_last(), now) == (m, 0nat));
    assert(exists_spec(m, seq![key].drop_last(), now) == (m, 0nat));
}


proof fn lemma_upper_char_idempotent(c: char)
    ensures
        ascii_upper_char(ascii_upper_char(c)) == ascii_upper_char(c),
{
}

/// Command names are read in any case: a frame is taken as the same frame
/// with the ASCII letters of its command's name upper-cased.
pub proof fn law_command_name_any_case(name: Seq<u8>, args: Seq<FrameView>)
    ensures
        from_frame_spec(FrameView::Array(seq![FrameView::Bulk(name)] + args)) == from_frame_spec(
            FrameView::Array(seq![FrameView::Bulk(ascii_upper_bytes(name))] + args),
        ),
{
    let upper = ascii_upper_bytes(name);
    let items1 = seq![FrameView::Bulk(name)] + args;
    let items2 = seq![FrameView::Bulk(upper)] + args;
    assert forall|i: int| 0 < i < items1.len() implies items1[i] == items2[i] by {}
    if forall|i: int| 0 <= i < items1.len() ==> #[trigger] items1[i] is Bulk {
        assert forall|i: int| 0 <= i < items2.len() implies #[trigger] items2[i] is Bulk by {
            if i > 0 {
                assert(items1[i] is Bulk);
            }
        }
        let a1 = items1.map_values(|f: FrameView| f->Bulk_0);
        let a2 = items2.map_values(|f: FrameView| f->Bulk_0);
        assert(bulk_args(items1) == Some(a1));
        assert(bulk_args(items2) == Some(a2));
        assert(a1[0] == name);
        assert(a2[0] == upper);
        assert(a1.skip(1) =~= a2.skip(1));
        lemma_upper_bytes_utf8(name);
        assert(ascii_upper_bytes(upper) =~= upper);
        if valid_utf8(name) {
            let chars = decode_utf8(name);
            assert(decode_utf8(upper).map_values(|c: char| ascii_upper_char(c)) =~= chars.map_values(
                |c: char| ascii_upper_char(c),
            )) by {
                assert forall|i: int| 0 <= i < chars.len() implies #[trigger] ascii_upper_char(
                    ascii_upper_char(chars[i]),
                ) == ascii_upper_char(chars[i]) by {
                    lemma_upper_char_idempotent(chars[i]);
                }
            }
        }
    } else {
        let j = choose|j: int| 0 <= j < items1.len() && !(#[trigger] items1[j] is Bulk);
        assert(j > 0);
        assert(!(items2[j] is Bulk));
    }
}


/// A request as a client sends it: an array of bulk strings.
pub open spec fn request(args: Seq<Seq<u8>>) -> FrameView {
    FrameView::Array(args.map_values(|a: Seq<u8>| FrameView::Bulk(a)))
}

/// A request whose first word is a command name in capitals is read by that
/// name, the other words being its arguments.
proof fn lemma_request_by_name(name: Seq<u8>, rest: Seq<Seq<u8>>)
    requires
        name.len() > 0,
        forall|i: int| 0 <= i < name.len() ==> 65 <= #[trigger] name[i] <= 90,
    ensures
        from_frame_spec(request(seq![name] + rest)) == dispatch_spec(name, decode_utf8(name), rest),
{
    let args = seq![name] + rest;
    let items = args.map_values(|a: Seq<u8>| FrameView::Bulk(a));
    lemma_name(name);
    assert(items.map_values(|f: FrameView| f->Bulk_0) =~= args);
    assert(bulk_args(items) == Some(args));
    assert(args[0] == name);
    assert(args.skip(1) =~= rest);
}

/// `PING` with no argument or one value, and `ECHO` with a value, are read as
/// those commands.
pub proof fn law_ping_echo_by_name(value: Seq<u8>)
    ensures
        from_frame_spec(request(seq![seq![80u8, 73, 78, 71]])) == Ok::<CommandView, CommandErrorView>(
            CommandView::Ping(None),
        ),
        from_frame_spec(request(seq![seq![80u8, 73, 78, 71], value])) == Ok::<
            CommandView,
            CommandErrorView,
        >(CommandView::Ping(Some(value))),
        from_frame_spec(request(seq![seq![69u8, 67, 72, 79], value])) == Ok::<
            CommandView,
            CommandErrorView,
        >(CommandView::Echo(value)),
{
    let ping = seq![80u8, 73, 78, 71];
    let echo = seq![69u8, 67, 72, 79];
    lemma_request_by_name(ping, seq![]);
    assert(seq![ping] + Seq::<Seq<u8>>::empty() =~= seq![ping]);
    lemma_request_by_name(ping, seq![value]);
    assert(seq![ping] + seq![value] =~= seq![ping, value]);
    lemma_request_by_name(echo, seq![value]);
    assert(seq![echo] + seq![value] =~= seq![echo, value]);
    assert(echo.len() == ping.len() && echo[0] != ping[0]);
}

/// `SET key value` is read as setting the UTF-8 text of `key` to `value`.
pub proof fn law_set_by_name(key: Seq<u8>, value: Seq<u8>)
    requires
        valid_utf8(key),
    ensures
        from_frame_spec(request(seq![seq![83u8, 69, 84], key, value])) == Ok::<
            CommandView,
            CommandErrorView,
        >(CommandView::SetValue { key: decode_utf8(key), value }),
{
    let set = seq![83u8, 69, 84];
    lemma_request_by_name(set, seq![key, value]);
    assert(seq![set] + seq![key, value] =~= seq![set, key, value]);
}

/// `GET key` is read as a read of the UTF-8 text of `key`.
pub proof fn law_get_by_name(key: Seq<u8>)
    requires
        valid_utf8(key),
    ensures
        from_frame_spec(request(seq![seq![71u8, 69, 84], key])) == Ok::<CommandView, CommandErrorView>(
            CommandView::Get { key: decode_utf8(key) },
        ),
{
    let get = seq![71u8, 69, 84];
    lemma_request_by_name(get, seq![key]);
    assert(seq![get] + seq![key] =~= seq![get, key]);
    assert(get[0] != seq![83u8, 69, 84][0]);
}

/// `TTL key` is read as asking the time to live of the UTF-8 text of `key`.
pub proof fn law_ttl_by_name(key: Seq<u8>)
    requires
        valid_utf8(key),
    ensures
        from_frame_spec(request(seq![seq![84u8, 84, 76], key])) == Ok::<CommandView, CommandErrorView>(
            CommandView::Ttl { key: decode_utf8(key) },
        ),
{
    let ttl = seq![84u8, 84, 76];
    lemma_request_by_name(ttl, seq![key]);
    assert(seq![ttl] + seq![key] =~= seq![ttl, key]);
    assert(ttl[0] != seq![83u8, 69, 84][0]);
    assert(ttl[0] != seq![71u8, 69, 84][0]);
    assert(ttl[0] != seq![68u8, 69, 76][0]);
}

/// `PERSIST key` is read as removing the expiration of the UTF-8 text of `key`.
pub proof fn law_persist_by_name(key: Seq<u8>)
    requires
        valid_utf8(key),
    ensures
        from_frame_spec(request(seq![seq![80u8, 69, 82, 83, 73, 83, 84], key])) == Ok::<
            CommandView,
            CommandErrorView,
        >(CommandView::Persist { key: decode_utf8(key) }),
{
    let persist = seq![80u8, 69, 82, 83, 73, 83, 84];
    lemma_request_by_name(persist, seq![key]);
    assert(seq![persist] + seq![key] =~= seq![persist, key]);
}

/// `DEL` and `EXISTS` with one or more keys are read as those commands on the
/// UTF-8 texts of the keys, in order.
pub proof fn law_del_exists_by_name(keys: Seq<Seq<u8>>)
    requires
        keys.len() > 0,
        forall|i: int| 0 <= i < keys.len() ==> valid_utf8(#[trigger] keys[i]),
    ensures
        from_frame_spec(request(seq![seq![68u8, 69, 76]] + keys)) == Ok::<CommandView, CommandErrorView>(
            CommandView::Del { keys: keys.map_values(|k: Seq<u8>| decode_utf8(k)) },
        ),
        from_frame_spec(request(seq![seq![69u8, 88, 73, 83, 84, 83]] + keys)) == Ok::<
            CommandView,
            CommandErrorView,
        >(CommandView::Exists { keys: keys.map_values(|k: Seq<u8>| decode_utf8(k)) }),
{
    let del = seq![68u8, 69, 76];
    let exists = seq![69u8, 88, 73, 83, 84, 83];
    lemma_request_by_name(del, keys);
    assert(del[0] != seq![83u8, 69, 84][0]);
    assert(del[0] != seq![71u8, 69, 84][0]);
    lemma_request_by_name(exists, keys);
    assert(exists[0] != seq![80u8, 73, 78, 71][0]);
}

/// `EXPIRE` and `EXPIREAT` with a key and a decimal number of seconds are read
/// as those commands on the UTF-8 text of the key and that number.
pub proof fn law_expire_by_name(key: Seq<u8>, seconds: u64)
    requires
        valid_utf8(key),
    ensures
        from_frame_spec(request(seq![seq![69u8, 88, 80, 73, 82, 69], key, decimal(seconds as nat)]))
            == Ok::<CommandView, CommandErrorView>(
            CommandView::Expire { key: decode_utf8(key), seconds },
        ),
        from_frame_spec(
            request(seq![seq![69u8, 88, 80, 73, 82, 69, 65, 84], key, decimal(seconds as nat)]),
        ) == Ok::<CommandView, CommandErrorView>(
            CommandView::ExpireAt { key: decode_utf8(key), unix_seconds: seconds },
        ),
{
    lemma_u64_arg(seconds as nat);
    let expire = seq![69u8, 88, 80, 73, 82, 69];
    let expireat = seq![69u8, 88, 80, 73, 82, 69, 65, 84];
    let d = decimal(seconds as nat);
    lemma_request_by_name(expire, seq![key, d]);
    assert(seq![expire] + seq![key, d] =~= seq![expire, key, d]);
    assert(expire[2] != seq![69u8, 88, 73, 83, 84, 83][2]);
    lemma_request_by_name(expireat, seq![key, d]);
    assert(seq![expireat] + seq![key, d] =~= seq![expireat, key, d]);
}


/// What the commands on one key answer: `TTL` -2 for a key without a live
/// entry, -1 for one without expiration, else the whole seconds left;
/// `PERSIST` 1 exactly when the key is live and has an expiration, else 0;
/// `EXPIRE` and `EXPIREAT` 1 exactly when the key is live, else 0.
pub proof fn law_key_command_answers(
    m: Map<Seq<char>, EntryView>,
    key: Seq<char>,
    seconds: u64,
    unix_seconds: u64,
    now: int,
)
    ensures
        !live(m, key, now) ==> execute_spec(CommandView::Ttl { key }, m, now).1 == FrameView::Integer(-2),
        live(m, key, now) && m[key].expires_at is None ==> execute_spec(CommandView::Ttl { key }, m, now).1
            == FrameView::Integer(-1),
        live(m, key, now) && m[key].expires_at is Some && m[key].expires_at->Some_0 - now <= 1000000000
            * i64::MAX ==> execute_spec(CommandView::Ttl { key }, m, now).1 == FrameView::Integer(
            (m[key].expires_at->Some_0 - now) / 1000000000,
        ),
        execute_spec(CommandView::Persist { key }, m, now).1 == FrameView::Integer(
            if live(m, key, now) && m[key].expires_at is Some {
                1
            } else {
                0
            },
        ),
        execute_spec(CommandView::Expire { key, seconds }, m, now).1 == FrameView::Integer(
            if live(m, key, now) {
                1
            } else {
                0
            },
        ),
        execute_spec(CommandView::ExpireAt { key, unix_seconds }, m, now).1 == FrameView::Integer(
            if live(m, key, now) {
                1
            } else {
                0
            },
        ),
{
    if live(m, key, now) && m[key].expires_at is Some {
        let t = m[key].expires_at->Some_0;
        if t - now <= 1000000000 * i64::MAX {
            assert(0 <= (t - now) / 1000000000 <= i64::MAX) by (nonlinear_arith)
                requires
                    0 < t - now <= 1000000000 * i64::MAX,
            ;
        }
    }
}

/// `DEL` answers how many different keys among those given held a live
/// entry, and `EXISTS` how many of the keys given (counted each time they are
/// named) hold one.
pub proof fn law_multi_key_counts(m: Map<Seq<char>, EntryView>, keys: Seq<Seq<char>>, now: int)
    requires
        keys.len() <= i64::MAX,
    ensures
        execute_spec(CommandView::Del { keys }, m, now).1 == FrameView::Integer(
            keys.to_set().filter(|k: Seq<char>| live(m, k, now)).len() as int,
        ),
        execute_spec(CommandView::Exists { keys }, m, now).1 == FrameView::Integer(
            keys.filter(|k: Seq<char>| live(m, k, now)).len() as int,
        ),
{
    law_del_counts_live_keys(m, keys, now);
    law_exists_counts_live_keys(m, keys, now);
    crate::storage::laws::law_del_removes(m, keys, now);
    crate::storage::laws::law_exists_keeps_live_entries(m, keys, now);
}

} // verus!
