pub mod laws;

use vstd::prelude::*;
use vstd::slice::slice_to_vec;
use vstd::string::StringExecFns;
use vstd::utf8::{decode_utf8, encode_utf8, valid_utf8};

use crate::clock::now_nanos;
use crate::protocol::number::{decimal, parse_u64, parse_u64_spec, push_decimal_wide};
use crate::protocol::{Frame, FrameView};
use crate::storage::table::{EntryView, ValueView};
use crate::storage::{
    deadline_after, del_spec, exists_spec, expire_at_spec, get_spec, key_names, persist_spec,
    redis_integer, ttl_spec, unix_deadline, MemoryStore, StoreError, MAX_TIME_NANOS,
    NANOS_PER_SECOND,
};
use crate::text::{
    ascii_upper_bytes, ascii_upper_char, bytes_equal, lemma_upper_bytes_utf8, upper_bytes,
    utf8_to_string,
};

verus! {

/// Why a frame is not a command.
#[derive(Debug)]
pub enum CommandError {
    Empty,
    ExpectedArray,
    ExpectedBulk,
    InvalidUtf8,
    InvalidInteger,
    WrongArity(&'static str),
    Unknown(String),
}

/// A command of the server.
#[derive(Debug, Clone, PartialEq, Eq)]
pub enum Command {
    /// `PING [message]`
    Ping(Option<Vec<u8>>),
    /// `ECHO message`
    Echo(Vec<u8>),
    /// `SET key value`
    SetValue { key: String, value: Vec<u8> },
    /// `GET key`
    Get { key: String },
    /// `DEL key [key ...]`
    Del { keys: Vec<String> },
    /// `EXISTS key [key ...]`
    Exists { keys: Vec<String> },
    /// `EXPIRE key seconds`
    Expire { key: String, seconds: u64 },
    /// `EXPIREAT key unix-seconds`
    ExpireAt { key: String, unix_seconds: u64 },
    /// `TTL key`
    Ttl { key: String },
    /// `PERSIST key`
    Persist { key: String },
}

/// The model of a [`CommandError`].
pub enum CommandErrorView {
    Empty,
    ExpectedArray,
    ExpectedBulk,
    InvalidUtf8,
    InvalidInteger,
    WrongArity(Seq<char>),
    Unknown(Seq<char>),
}

/// The model of a [`Command`]: keys as characters, values as bytes.
pub enum CommandView {
    Ping(Option<Seq<u8>>),
    Echo(Seq<u8>),
    SetValue { key: Seq<char>, value: Seq<u8> },
    Get { key: Seq<char> },
    Del { keys: Seq<Seq<char>> },
    Exists { keys: Seq<Seq<char>> },
    Expire { key: Seq<char>, seconds: u64 },
    ExpireAt { key: Seq<char>, unix_seconds: u64 },
    Ttl { key: Seq<char> },
    Persist { key: Seq<char> },
}

impl View for CommandError {
    type V = CommandErrorView;

    open spec fn view(&self) -> CommandErrorView {
        match self {
            CommandError::Empty => CommandErrorView::Empty,
            CommandError::ExpectedArray => CommandErrorView::ExpectedArray,
            CommandError::ExpectedBulk => CommandErrorView::ExpectedBulk,
            CommandError::InvalidUtf8 => CommandErrorView::InvalidUtf8,
            CommandError::InvalidInteger => CommandErrorView::InvalidInteger,
            CommandError::WrongArity(name) => CommandErrorView::WrongArity(name@),
            CommandError::Unknown(name) => CommandErrorView::Unknown(name@),
        }
    }
}

impl View for Command {
    type V = CommandView;

    open spec fn view(&self) -> CommandView {
        match self {
            Command::Ping(v) => CommandView::Ping(
                match v {
                    Some(v) => Some(v@),
                    None => None,
                },
            ),
            Command::Echo(v) => CommandView::Echo(v@),
            Command::SetValue { key, value } => CommandView::SetValue { key: key@, value: value@ },
            Command::Get { key } => CommandView::Get { key: key@ },
            Command::Del { keys } => CommandView::Del { keys: key_names(keys@) },
            Command::Exists { keys } => CommandView::Exists { keys: key_names(keys@) },
            Command::Expire { key, seconds } => CommandView::Expire { key: key@, seconds: *seconds },
            Command::ExpireAt { key, unix_seconds } => CommandView::ExpireAt {
                key: key@,
                unix_seconds: *unix_seconds,
            },
            Command::Ttl { key } => CommandView::Ttl { key: key@ },
            Command::Persist { key } => CommandView::Persist { key: key@ },
        }
    }
}

pub open spec fn parsed(r: Result<Command, CommandError>) -> Result<CommandView, CommandErrorView> {
    match r {
        Ok(c) => Ok(c@),
        Err(e) => Err(e@),
    }
}

/// The arguments of a command: the bytes of each item, when every item is a bulk string.
pub open spec fn bulk_args(items: Seq<FrameView>) -> Option<Seq<Seq<u8>>> {
    if forall|i: int| 0 <= i < items.len() ==> #[trigger] items[i] is Bulk {
        Some(items.map_values(|f: FrameView| f->Bulk_0))
    } else {
        None
    }
}

/// A key or a name: UTF-8 text.
pub open spec fn text_arg(b: Seq<u8>) -> Result<Seq<char>, CommandErrorView> {
    if valid_utf8(b) {
        Ok(decode_utf8(b))
    } else {
        Err(CommandErrorView::InvalidUtf8)
    }
}

/// A number of seconds: UTF-8 text that `u64::from_str` accepts.
pub open spec fn u64_arg(b: Seq<u8>) -> Result<u64, CommandErrorView> {
    if !valid_utf8(b) {
        Err(CommandErrorView::InvalidUtf8)
    } else {
        match parse_u64_spec(b) {
            Some(v) => Ok(v),
            None => Err(CommandErrorView::InvalidInteger),
        }
    }
}

/// Keys: each UTF-8 text.
pub open spec fn keys_arg(args: Seq<Seq<u8>>) -> Result<Seq<Seq<char>>, CommandErrorView> {
    if forall|i: int| 0 <= i < args.len() ==> valid_utf8(#[trigger] args[i]) {
        Ok(args.map_values(|a: Seq<u8>| decode_utf8(a)))
    } else {
        Err(CommandErrorView::InvalidUtf8)
    }
}

/// The bytes of `PING`.
pub open spec fn ping_name() -> Seq<u8> {
    seq![80u8, 73, 78, 71]
}

/// The bytes of `ECHO`.
pub open spec fn echo_name() -> Seq<u8> {
    seq![69u8, 67, 72, 79]
}

/// The bytes of `SET`.
pub open spec fn set_name() -> Seq<u8> {
    seq![83u8, 69, 84]
}

/// The bytes of `GET`.
pub open spec fn get_name() -> Seq<u8> {
    seq![71u8, 69, 84]
}

/// The bytes of `DEL`.
pub open spec fn del_name() -> Seq<u8> {
    seq![68u8, 69, 76]
}

/// The bytes of `EXISTS`.
pub open spec fn exists_name() -> Seq<u8> {
    seq![69u8, 88, 73, 83, 84, 83]
}

/// The bytes of `EXPIRE`.
pub open spec fn expire_name() -> Seq<u8> {
    seq![69u8, 88, 80, 73, 82, 69]
}

/// The bytes of `EXPIREAT`.
pub open spec fn expireat_name() -> Seq<u8> {
    seq![69u8, 88, 80, 73, 82, 69, 65, 84]
}

/// The bytes of `TTL`.
pub open spec fn ttl_name() -> Seq<u8> {
    seq![84u8, 84, 76]
}

/// The bytes of `PERSIST`.
pub open spec fn persist_name() -> Seq<u8> {
    seq![80u8, 69, 82, 83, 73, 83, 84]
}

/// The single key argument of the command `name`.
pub open spec fn single_key_spec(rest: Seq<Seq<u8>>, name: Seq<char>) -> Result<
    Seq<char>,
    CommandErrorView,
> {
    if rest.len() != 1 {
        Err(CommandErrorView::WrongArity(name))
    } else {
        text_arg(rest[0])
    }
}

/// The key and seconds arguments of the command `name`.
pub open spec fn key_seconds_spec(rest: Seq<Seq<u8>>, name: Seq<char>) -> Result<
    (Seq<char>, u64),
    CommandErrorView,
> {
    if rest.len() != 2 {
        Err(CommandErrorView::WrongArity(name))
    } else {
        match text_arg(rest[0]) {
            Err(e) => Err(e),
            Ok(k) => match u64_arg(rest[1]) {
                Ok(n) => Ok((k, n)),
                Err(e) => Err(e),
            },
        }
    }
}

/// The one or more key arguments of the command `name`.
pub open spec fn keys_spec(rest: Seq<Seq<u8>>, name: Seq<char>) -> Result<
    Seq<Seq<char>>,
    CommandErrorView,
> {
    if rest.len() == 0 {
        Err(CommandErrorView::WrongArity(name))
    } else {
        keys_arg(rest)
    }
}

/// The command named `upper` (the name in ASCII upper case; `name` is the
/// name as given) with the arguments `rest`.
pub open spec fn dispatch_spec(upper: Seq<u8>, name: Seq<char>, rest: Seq<Seq<u8>>) -> Result<
    CommandView,
    CommandErrorView,
> {
    if upper == ping_name() {
        if rest.len() == 0 {
            Ok(CommandView::Ping(None))
        } else if rest.len() == 1 {
            Ok(CommandView::Ping(Some(rest[0])))
        } else {
            Err(CommandErrorView::WrongArity("PING"@))
        }
    } else if upper == echo_name() {
        if rest.len() == 1 {
            Ok(CommandView::Echo(rest[0]))
        } else {
            Err(CommandErrorView::WrongArity("ECHO"@))
        }
    } else if upper == set_name() {
        if rest.len() != 2 {
            Err(CommandErrorView::WrongArity("SET"@))
        } else {
            match text_arg(rest[0]) {
                Ok(k) => Ok(CommandView::SetValue { key: k, value: rest[1] }),
                Err(e) => Err(e),
            }
        }
    } else if upper == get_name() {
        match single_key_spec(rest, "GET"@) {
            Ok(k) => Ok(CommandView::Get { key: k }),
            Err(e) => Err(e),
        }
    } else if upper == del_name() {
        match keys_spec(rest, "DEL"@) {
            Ok(ks) => Ok(CommandView::Del { keys: ks }),
            Err(e) => Err(e),
        }
    } else if upper == exists_name() {
        match keys_spec(rest, "EXISTS"@) {
            Ok(ks) => Ok(CommandView::Exists { keys: ks }),
            Err(e) => Err(e),
        }
    } else if upper == expire_name() {
        match key_seconds_spec(rest, "EXPIRE"@) {
            Ok((k, n)) => Ok(CommandView::Expire { key: k, seconds: n }),
            Err(e) => Err(e),
        }
    } else if upper == expireat_name() {
        match key_seconds_spec(rest, "EXPIREAT"@) {
            Ok((k, n)) => Ok(CommandView::ExpireAt { key: k, unix_seconds: n }),
            Err(e) => Err(e),
        }
    } else if upper == ttl_name() {
        match single_key_spec(rest, "TTL"@) {
            Ok(k) => Ok(CommandView::Ttl { key: k }),
            Err(e) => Err(e),
        }
    } else if upper == persist_name() {
        match single_key_spec(rest, "PERSIST"@) {
            Ok(k) => Ok(CommandView::Persist { key: k }),
            Err(e) => Err(e),
        }
    } else {
        Err(CommandErrorView::Unknown(name.map_values(|c: char| ascii_upper_char(c))))
    }
}

/// The command that a frame asks for: an array of bulk strings, the first
/// the command's name in any case, the others its arguments.
pub open spec fn from_frame_spec(f: FrameView) -> Result<CommandView, CommandErrorView> {
    match f {
        FrameView::Array(items) => match bulk_args(items) {
            None => Err(CommandErrorView::ExpectedBulk),
            Some(args) => if args.len() == 0 {
                Err(CommandErrorView::Empty)
            } else if !valid_utf8(args[0]) {
                Err(CommandErrorView::InvalidUtf8)
            } else {
                dispatch_spec(ascii_upper_bytes(args[0]), decode_utf8(args[0]), args.skip(1))
            },
        },
        _ => Err(CommandErrorView::ExpectedArray),
    }
}


/// The bytes of each item, when every item is a bulk string.
fn into_bulk_args(items: Vec<Frame>) -> (r: Result<Vec<Vec<u8>>, CommandError>)
    ensures
        match r {
            Ok(args) => bulk_args(items@.map_values(|f: Frame| f@)) == Some(
                args@.map_values(|a: Vec<u8>| a@),
            ),
            Err(e) => bulk_args(items@.map_values(|f: Frame| f@)) is None && e@
                == CommandErrorView::ExpectedBulk,
        },
{
    let ghost models = items@.map_values(|f: Frame| f@);
    let mut args: Vec<Vec<u8>> = Vec::new();
    let mut bad: bool = false;
    for item in it: items
        invariant
            models == it.seq().map_values(|f: Frame| f@),
            !bad ==> args@.len() == it.index(),
            !bad ==> forall|j: int| 0 <= j < it.index() ==> #[trigger] models[j] is Bulk,
            !bad ==> args@.map_values(|a: Vec<u8>| a@) == models.take(it.index() as int).map_values(
                |f: FrameView| f->Bulk_0,
            ),
            bad ==> exists|j: int| 0 <= j < models.len() && !(#[trigger] models[j] is Bulk),
    {
        let ghost k = it.index();
        proof {
            assert(it.seq()[k] == item);
            assert(models[k as int] == item@);
        }
        match item {
            Frame::Bulk(value) => {
                if !bad {
                    let ghost before = args@;
                    args.push(value);
                    proof {
                        assert(args@.map_values(|a: Vec<u8>| a@) =~= before.map_values(|a: Vec<u8>| a@).push(value@));
                        assert(models.take(k + 1) =~= models.take(k as int).push(models[k as int]));
                        assert(args@.map_values(|a: Vec<u8>| a@) =~= models.take(k + 1).map_values(
                            |f: FrameView| f->Bulk_0,
                        ));
                    }
                }
            },
            _ => {
                bad = true;
                assert(!(models[k as int] is Bulk));
            },
        }
    }
    if bad {
        Err(CommandError::ExpectedBulk)
    } else {
        proof {
            assert(models.take(models.len() as int) =~= models);
        }
        Ok(args)
    }
}

/// The bytes as UTF-8 text.
fn bytes_to_string(bytes: Vec<u8>) -> (r: Result<String, CommandError>)
    ensures
        match r {
            Ok(s) => text_arg(bytes@) == Ok::<Seq<char>, CommandErrorView>(s@),
            Err(e) => text_arg(bytes@) == Err::<Seq<char>, CommandErrorView>(e@),
        },
{
    match utf8_to_string(bytes) {
        Some(s) => Ok(s),
        None => Err(CommandError::InvalidUtf8),
    }
}

/// Each argument as UTF-8 text.
fn into_keys(args: Vec<Vec<u8>>) -> (r: Result<Vec<String>, CommandError>)
    ensures
        match r {
            Ok(keys) => keys_arg(args@.map_values(|a: Vec<u8>| a@)) == Ok::<
                Seq<Seq<char>>,
                CommandErrorView,
            >(key_names(keys@)),
            Err(e) => keys_arg(args@.map_values(|a: Vec<u8>| a@)) == Err::<
                Seq<Seq<char>>,
                CommandErrorView,
            >(e@),
        },
{
    let ghost models = args@.map_values(|a: Vec<u8>| a@);
    let mut keys: Vec<String> = Vec::new();
    for arg in it: args
        invariant
            models == it.seq().map_values(|a: Vec<u8>| a@),
            keys@.len() == it.index(),
            forall|j: int| 0 <= j < it.index() ==> valid_utf8(#[trigger] models[j]),
            key_names(keys@) == models.take(it.index() as int).map_values(
                |a: Seq<u8>| decode_utf8(a),
            ),
    {
        let ghost k = it.index();
        let ghost before = keys@;
        proof {
            assert(it.seq()[k] == arg);
            assert(models[k as int] == arg@);
        }
        match utf8_to_string(arg) {
            Some(key) => {
                keys.push(key);
                proof {
                    assert(key_names(keys@) =~= key_names(before).push(key@));
                    assert(models.take(k + 1) =~= models.take(k as int).push(models[k as int]));
                    assert(key_names(keys@) =~= models.take(k + 1).map_values(
                        |a: Seq<u8>| decode_utf8(a),
                    ));
                }
            },
            None => {
                return Err(CommandError::InvalidUtf8);
            },
        }
    }
    proof {
        assert(models.take(models.len() as int) =~= models);
    }
    Ok(keys)
}

/// A number of seconds.
fn parse_u64_arg(bytes: Vec<u8>) -> (r: Result<u64, CommandError>)
    ensures
        match r {
            Ok(n) => u64_arg(bytes@) == Ok::<u64, CommandErrorView>(n),
            Err(e) => u64_arg(bytes@) == Err::<u64, CommandErrorView>(e@),
        },
{
    match parse_u64(bytes.as_slice()) {
        Some(n) => {
            if utf8_to_string(bytes).is_some() {
                Ok(n)
            } else {
                Err(CommandError::InvalidUtf8)
            }
        },
        None => {
            if utf8_to_string(bytes).is_some() {
                Err(CommandError::InvalidInteger)
            } else {
                Err(CommandError::InvalidUtf8)
            }
        },
    }
}


spec fn arg_models(args: Seq<Vec<u8>>) -> Seq<Seq<u8>> {
    args.map_values(|a: Vec<u8>| a@)
}

fn single_key(args: Vec<Vec<u8>>, name: &'static str) -> (r: Result<String, CommandError>)
    ensures
        match r {
            Ok(k) => single_key_spec(arg_models(args@), name@) == Ok::<Seq<char>, CommandErrorView>(
                k@,
            ),
            Err(e) => single_key_spec(arg_models(args@), name@) == Err::<
                Seq<char>,
                CommandErrorView,
            >(e@),
        },
{
    if args.len() != 1 {
        return Err(CommandError::WrongArity(name));
    }
    let mut args = args;
    let ghost a = args@;
    let key = args.pop().unwrap();
    assert(key@ == arg_models(a)[0]);
    bytes_to_string(key)
}

fn key_seconds(args: Vec<Vec<u8>>, name: &'static str) -> (r: Result<(String, u64), CommandError>)
    ensures
        match r {
            Ok((k, n)) => key_seconds_spec(arg_models(args@), name@) == Ok::<
                (Seq<char>, u64),
                CommandErrorView,
            >((k@, n)),
            Err(e) => key_seconds_spec(arg_models(args@), name@) == Err::<
                (Seq<char>, u64),
                CommandErrorView,
            >(e@),
        },
{
    if args.len() != 2 {
        return Err(CommandError::WrongArity(name));
    }
    let mut args = args;
    let ghost a = args@;
    let seconds = args.pop().unwrap();
    let key = args.pop().unwrap();
    assert(key@ == arg_models(a)[0]);
    assert(seconds@ == arg_models(a)[1]);
    let key = match bytes_to_string(key) {
        Ok(k) => k,
        Err(e) => {
            return Err(e);
        },
    };
    match parse_u64_arg(seconds) {
        Ok(n) => Ok((key, n)),
        Err(e) => Err(e),
    }
}

fn some_keys(args: Vec<Vec<u8>>, name: &'static str) -> (r: Result<Vec<String>, CommandError>)
    ensures
        match r {
            Ok(ks) => keys_spec(arg_models(args@), name@) == Ok::<Seq<Seq<char>>, CommandErrorView>(
                key_names(ks@),
            ),
            Err(e) => keys_spec(arg_models(args@), name@) == Err::<
                Seq<Seq<char>>,
                CommandErrorView,
            >(e@),
        },
{
    if args.len() == 0 {
        return Err(CommandError::WrongArity(name));
    }
    into_keys(args)
}

fn dispatch(upper: Vec<u8>, name: String, args: Vec<Vec<u8>>) -> (r: Result<Command, CommandError>)
    requires
        valid_utf8(upper@),
        decode_utf8(upper@) == name@.map_values(|c: char| ascii_upper_char(c)),
    ensures
        parsed(r) == dispatch_spec(upper@, name@, arg_models(args@)),
{
    let ghost rest = arg_models(args@);
    if bytes_equal(upper.as_slice(), vec![80u8, 73u8, 78u8, 71u8].as_slice()) {
        // PING
        if args.len() == 0 {
            Ok(Command::Ping(None))
        } else if args.len() == 1 {
            let mut args = args;
            let value = args.pop().unwrap();
            assert(value@ == rest[0]);
            Ok(Command::Ping(Some(value)))
        } else {
            Err(CommandError::WrongArity("PING"))
        }
    } else if bytes_equal(upper.as_slice(), vec![69u8, 67u8, 72u8, 79u8].as_slice()) {
        // ECHO
        if args.len() == 1 {
            let mut args = args;
            let value = args.pop().unwrap();
            assert(value@ == rest[0]);
            Ok(Command::Echo(value))
        } else {
            Err(CommandError::WrongArity("ECHO"))
        }
    } else if bytes_equal(upper.as_slice(), vec![83u8, 69u8, 84u8].as_slice()) {
        // SET
        if args.len() != 2 {
            return Err(CommandError::WrongArity("SET"));
        }
        let mut args = args;
        let value = args.pop().unwrap();
        let key = args.pop().unwrap();
        assert(key@ == rest[0]);
        assert(value@ == rest[1]);
        match bytes_to_string(key) {
            Ok(key) => Ok(Command::SetValue { key, value }),
            Err(e) => Err(e),
        }
    } else if bytes_equal(upper.as_slice(), vec![71u8, 69u8, 84u8].as_slice()) {
        // GET
        match single_key(args, "GET") {
            Ok(key) => Ok(Command::Get { key }),
            Err(e) => Err(e),
        }
    } else if bytes_equal(upper.as_slice(), vec![68u8, 69u8, 76u8].as_slice()) {
        // DEL
        match some_keys(args, "DEL") {
            Ok(keys) => Ok(Command::Del { keys }),
            Err(e) => Err(e),
        }
    } else if bytes_equal(upper.as_slice(), vec![69u8, 88u8, 73u8, 83u8, 84u8, 83u8].as_slice()) {
        // EXISTS
        match some_keys(args, "EXISTS") {
            Ok(keys) => Ok(Command::Exists { keys }),
            Err(e) => Err(e),
        }
    } else if bytes_equal(upper.as_slice(), vec![69u8, 88u8, 80u8, 73u8, 82u8, 69u8].as_slice()) {
        // EXPIRE
        match key_seconds(args, "EXPIRE") {
            Ok((key, seconds)) => Ok(Command::Expire { key, seconds }),
            Err(e) => Err(e),
        }
    } else if bytes_equal(
        upper.as_slice(),
        vec![69u8, 88u8, 80u8, 73u8, 82u8, 69u8, 65u8, 84u8].as_slice(),
    ) {
        // EXPIREAT
        match key_seconds(args, "EXPIREAT") {
            Ok((key, unix_seconds)) => Ok(Command::ExpireAt { key, unix_seconds }),
            Err(e) => Err(e),
        }
    } else if bytes_equal(upper.as_slice(), vec![84u8, 84u8, 76u8].as_slice()) {
        // TTL
        match single_key(args, "TTL") {
            Ok(key) => Ok(Command::Ttl { key }),
            Err(e) => Err(e),
        }
    } else if bytes_equal(upper.as_slice(), vec![80u8, 69u8, 82u8, 83u8, 73u8, 83u8, 84u8].as_slice()) {
        // PERSIST
        match single_key(args, "PERSIST") {
            Ok(key) => Ok(Command::Persist { key }),
            Err(e) => Err(e),
        }
    } else {
        match utf8_to_string(upper) {
            Some(upper_name) => Err(CommandError::Unknown(upper_name)),
            // Not reached: the upper-cased name is well-formed UTF-8.
            None => Err(CommandError::InvalidUtf8),
        }
    }
}

impl Command {
    /// The command that a frame asks for.
    pub fn from_frame(frame: Frame) -> (r: Result<Self, CommandError>)
        ensures
            parsed(r) == from_frame_spec(frame@),
    {
        let ghost fm = frame@;
        let items = match frame {
            Frame::Array(items) => items,
            _ => {
                return Err(CommandError::ExpectedArray);
            },
        };
        proof {
            assert(fm->Array_0 =~= items@.map_values(|f: Frame| f@));
        }
        let mut args = match into_bulk_args(items) {
            Ok(args) => args,
            Err(e) => {
                return Err(e);
            },
        };
        if args.len() == 0 {
            return Err(CommandError::Empty);
        }
        let ghost all = arg_models(args@);
        let name = args.remove(0);
        proof {
            assert(name@ == all[0]);
            assert(arg_models(args@) =~= all.skip(1));
        }
        let ghost name_bytes = name@;
        let upper = upper_bytes(name.as_slice());
        let name_text = match utf8_to_string(name) {
            Some(text) => text,
            None => {
                return Err(CommandError::InvalidUtf8);
            },
        };
        proof {
            lemma_upper_bytes_utf8(name_bytes);
        }
        dispatch(upper, name_text, args)
    }
}


/// A time in nanoseconds since the Unix epoch, as whole seconds rounded up;
/// a time before the epoch counts as 0.
pub open spec fn unix_seconds_ceil(t: int) -> int {
    if t < 0 {
        0
    } else {
        t / NANOS_PER_SECOND as int + if t % NANOS_PER_SECOND as int > 0 {
            1int
        } else {
            0int
        }
    }
}

/// The Unix time, in whole seconds rounded up, that lies `seconds` after `now`.
pub open spec fn expiration_deadline_spec(seconds: int, now: int) -> int {
    unix_seconds_ceil(deadline_after(now, seconds))
}

pub open spec fn bulk_text(k: Seq<char>) -> FrameView {
    FrameView::Bulk(encode_utf8(k))
}

/// The frame that the append-only file records for a command that changes
/// the store; a relative expiration is recorded as an absolute one.
pub open spec fn to_aof_frame_spec(c: CommandView, now: int) -> Option<FrameView> {
    match c {
        CommandView::SetValue { key, value } => Some(
            FrameView::Array(seq![FrameView::Bulk(set_name()), bulk_text(key), FrameView::Bulk(value)]),
        ),
        CommandView::Del { keys } => Some(
            FrameView::Array(
                seq![FrameView::Bulk(del_name())] + keys.map_values(|k: Seq<char>| bulk_text(k)),
            ),
        ),
        CommandView::Expire { key, seconds } => Some(
            FrameView::Array(
                seq![
                    FrameView::Bulk(expireat_name()),
                    bulk_text(key),
                    FrameView::Bulk(decimal(expiration_deadline_spec(seconds as int, now) as nat)),
                ],
            ),
        ),
        CommandView::ExpireAt { key, unix_seconds } => Some(
            FrameView::Array(
                seq![
                    FrameView::Bulk(expireat_name()),
                    bulk_text(key),
                    FrameView::Bulk(decimal(unix_seconds as nat)),
                ],
            ),
        ),
        CommandView::Persist { key } => Some(
            FrameView::Array(seq![FrameView::Bulk(persist_name()), bulk_text(key)]),
        ),
        _ => None,
    }
}

pub open spec fn frame_option(f: Option<Frame>) -> Option<FrameView> {
    match f {
        Some(f) => Some(f@),
        None => None,
    }
}

fn bulk_key(key: &String) -> (f: Frame)
    ensures
        f@ == bulk_text(key@),
{
    Frame::Bulk(slice_to_vec(key.as_str().as_bytes()))
}

/// The Unix time, in whole seconds rounded up, that lies `seconds` after `now`.
fn expiration_deadline(seconds: u64, now: i128) -> (r: u128)
    ensures
        r == expiration_deadline_spec(seconds as int, now as int),
{
    let step = seconds as i128 * NANOS_PER_SECOND;
    let deadline = if now <= MAX_TIME_NANOS - step {
        now + step
    } else {
        now
    };
    unix_seconds_ceil_of(deadline)
}

/// A time in nanoseconds since the Unix epoch, as whole seconds rounded up;
/// a time before the epoch counts as 0.
fn unix_seconds_ceil_of(t: i128) -> (r: u128)
    ensures
        r == unix_seconds_ceil(t as int),
{
    if t < 0 {
        return 0;
    }
    let n = t as u128;
    n / 1000000000u128 + if n % 1000000000u128 > 0 {
        1
    } else {
        0
    }
}

fn decimal_frame(n: u128) -> (f: Frame)
    ensures
        f@ == FrameView::Bulk(decimal(n as nat)),
{
    let mut text: Vec<u8> = Vec::new();
    push_decimal_wide(n, &mut text);
    assert(text@ =~= decimal(n as nat));
    Frame::Bulk(text)
}

impl Command {
    /// The frame that the append-only file records for this command at time
    /// `now`, if it changes the store.
    pub fn to_aof_frame_at(&self, now: i128) -> (r: Option<Frame>)
        ensures
            frame_option(r) == to_aof_frame_spec(self@, now as int),
    {
        match self {
            Command::SetValue { key, value } => {
                let name: Vec<u8> = vec![83u8, 69u8, 84u8];
                let mut items: Vec<Frame> = Vec::new();
                items.push(Frame::Bulk(name));
                items.push(bulk_key(key));
                let v = slice_to_vec(value.as_slice());
                assert(v@ == value@);
                items.push(Frame::Bulk(v));
                assert(items@[0]@ == FrameView::Bulk(set_name()));
                assert(items@[1]@ == bulk_text(key@));
                assert(items@[2]@ == FrameView::Bulk(value@));
                let f = Frame::Array(items);
                assert(f@->Array_0 =~= seq![FrameView::Bulk(set_name()), bulk_text(key@), FrameView::Bulk(value@)]);
                Some(f)
            },
            Command::Del { keys } => {
                let mut items: Vec<Frame> = vec![Frame::Bulk(vec![68u8, 69u8, 76u8])];
                let ghost names = key_names(keys@);
                let mut i: usize = 0;
                while i < keys.len()
                    invariant
                        i <= keys.len(),
                        names == key_names(keys@),
                        items@.len() == i + 1,
                        items@[0]@ == FrameView::Bulk(del_name()),
                        forall|j: int| 0 <= j < i ==> #[trigger] items@[j + 1]@ == bulk_text(names[j]),
                    decreases keys.len() - i,
                {
                    items.push(bulk_key(&keys[i]));
                    i = i + 1;
                }
                let f = Frame::Array(items);
                proof {
                    let expected = seq![FrameView::Bulk(del_name())] + names.map_values(
                        |k: Seq<char>| bulk_text(k),
                    );
                    assert forall|j: int| 0 <= j < expected.len() implies f@->Array_0[j]
                        == expected[j] by {
                        if j > 0 {
                            assert(items@[(j - 1) + 1]@ == bulk_text(names[j - 1]));
                        }
                    }
                    assert(f@->Array_0 =~= expected);
                }
                Some(f)
            },
            Command::Expire { key, seconds } => {
                let name: Vec<u8> = vec![69u8, 88u8, 80u8, 73u8, 82u8, 69u8, 65u8, 84u8];
                let mut items: Vec<Frame> = Vec::new();
                items.push(Frame::Bulk(name));
                items.push(bulk_key(key));
                let d = decimal_frame(expiration_deadline(*seconds, now));
                items.push(d);
                assert(items@[0]@ == FrameView::Bulk(expireat_name()));
                assert(items@[1]@ == bulk_text(key@));
                assert(items@[2]@ == d@);
                let f = Frame::Array(items);
                assert(f@->Array_0 =~= seq![
                    FrameView::Bulk(expireat_name()),
                    bulk_text(key@),
                    FrameView::Bulk(decimal(expiration_deadline_spec(*seconds as int, now as int) as nat)),
                ]);
                Some(f)
            },
            Command::ExpireAt { key, unix_seconds } => {
                let name: Vec<u8> = vec![69u8, 88u8, 80u8, 73u8, 82u8, 69u8, 65u8, 84u8];
                let mut items: Vec<Frame> = Vec::new();
                items.push(Frame::Bulk(name));
                items.push(bulk_key(key));
                let d = decimal_frame(*unix_seconds as u128);
                items.push(d);
                assert(items@[0]@ == FrameView::Bulk(expireat_name()));
                assert(items@[1]@ == bulk_text(key@));
                assert(items@[2]@ == d@);
                let f = Frame::Array(items);
                assert(f@->Array_0 =~= seq![
                    FrameView::Bulk(expireat_name()),
                    bulk_text(key@),
                    FrameView::Bulk(decimal(*unix_seconds as nat)),
                ]);
                Some(f)
            },
            Command::Persist { key } => {
                let name: Vec<u8> = vec![80u8, 69u8, 82u8, 83u8, 73u8, 83u8, 84u8];
                let mut items: Vec<Frame> = Vec::new();
                items.push(Frame::Bulk(name));
                items.push(bulk_key(key));
                assert(items@[0]@ == FrameView::Bulk(persist_name()));
                assert(items@[1]@ == bulk_text(key@));
                let f = Frame::Array(items);
                assert(f@->Array_0 =~= seq![FrameView::Bulk(persist_name()), bulk_text(key@)]);
                Some(f)
            },
            _ => None,
        }
    }

    /// The frame that the append-only file records for this command, if it
    /// changes the store; a relative expiration is fixed against the clock.
    pub fn to_aof_frame(&self) -> (r: Option<Frame>)
        ensures
            exists|now: i128|
                #![trigger to_aof_frame_spec(self@, now as int)]
                frame_option(r) == to_aof_frame_spec(self@, now as int),
    {
        let now = now_nanos();
        self.to_aof_frame_at(now)
    }
}


/// The answer to reading a key that holds a list as a string.
pub open spec fn wrong_type_text() -> Seq<char> {
    "WRONGTYPE Operation against a key holding the wrong kind of value"@
}

pub open spec fn flag(b: bool) -> FrameView {
    FrameView::Integer(if b {
        1
    } else {
        0
    })
}

/// What running a command at time `now` does to the store, and what it answers.
pub open spec fn execute_spec(c: CommandView, m: Map<Seq<char>, EntryView>, now: int) -> (Map<
    Seq<char>,
    EntryView,
>, FrameView) {
    match c {
        CommandView::Ping(None) => (m, FrameView::Simple("PONG"@)),
        CommandView::Ping(Some(v)) => (m, FrameView::Bulk(v)),
        CommandView::Echo(v) => (m, FrameView::Bulk(v)),
        CommandView::SetValue { key, value } => (
            m.insert(key, EntryView { value: ValueView::String(value), expires_at: None }),
            FrameView::Simple("OK"@),
        ),
        CommandView::Get { key } => {
            let (m1, r) = get_spec(m, key, now);
            (
                m1,
                match r {
                    Ok(Some(v)) => FrameView::Bulk(v),
                    Ok(None) => FrameView::Null,
                    Err(_) => FrameView::Error(wrong_type_text()),
                },
            )
        },
        CommandView::Del { keys } => {
            let (m1, n) = del_spec(m, keys, now);
            (m1, FrameView::Integer((n as i64) as int))
        },
        CommandView::Exists { keys } => {
            let (m1, n) = exists_spec(m, keys, now);
            (m1, FrameView::Integer((n as i64) as int))
        },
        CommandView::Expire { key, seconds } => {
            let (m1, b) = expire_at_spec(m, key, deadline_after(now, seconds as int), now);
            (m1, flag(b))
        },
        CommandView::ExpireAt { key, unix_seconds } => {
            let (m1, b) = expire_at_spec(m, key, unix_deadline(unix_seconds as int, now), now);
            (m1, flag(b))
        },
        CommandView::Ttl { key } => {
            let (m1, t) = ttl_spec(m, key, now);
            (m1, FrameView::Integer(redis_integer(t)))
        },
        CommandView::Persist { key } => {
            let (m1, b) = persist_spec(m, key, now);
            (m1, flag(b))
        },
    }
}

fn flag_frame(b: bool) -> (f: Frame)
    ensures
        f@ == flag(b),
{
    Frame::Integer(if b {
        1
    } else {
        0
    })
}

impl Command {
    /// Runs the command on `store` at time `now`, and gives the answer.
    pub fn execute_at(self, store: &mut MemoryStore, now: i128) -> (r: Frame)
        ensures
            (final(store)@, r@) == execute_spec(self@, old(store)@, now as int),
    {
        match self {
            Command::Ping(None) => Frame::Simple("PONG".to_string()),
            Command::Ping(Some(value)) => Frame::Bulk(value),
            Command::Echo(value) => Frame::Bulk(value),
            Command::SetValue { key, value } => {
                store.set(key, value);
                Frame::Simple("OK".to_string())
            },
            Command::Get { key } => match store.get_at(key.as_str(), now) {
                Ok(Some(value)) => Frame::Bulk(value),
                Ok(None) => Frame::Null,
                Err(StoreError::WrongType) => Frame::Error(
                    "WRONGTYPE Operation against a key holding the wrong kind of value".to_string(),
                ),
            },
            Command::Del { keys } => Frame::Integer(store.del_at(keys.as_slice(), now) as i64),
            Command::Exists { keys } => Frame::Integer(
                store.exists_at(keys.as_slice(), now) as i64,
            ),
            Command::Expire { key, seconds } => flag_frame(
                store.expire_in(key.as_str(), seconds, now),
            ),
            Command::ExpireAt { key, unix_seconds } => flag_frame(
                store.expire_at_unix_at(key.as_str(), unix_seconds, now),
            ),
            Command::Ttl { key } => Frame::Integer(store.ttl_at(key.as_str(), now).as_redis_integer()),
            Command::Persist { key } => flag_frame(store.persist_at(key.as_str(), now)),
        }
    }

    /// Runs the command on `store` now, and gives the answer.
    pub fn execute(self, store: &mut MemoryStore) -> (r: Frame)
        ensures
            exists|now: i128|
                #![trigger execute_spec(self@, old(store)@, now as int)]
                (final(store)@, r@) == execute_spec(self@, old(store)@, now as int),
    {
        let now = now_nanos();
        self.execute_at(store, now)
    }
}


/// The text of a command error.
pub open spec fn message_spec(e: CommandErrorView) -> Seq<char> {
    match e {
        CommandErrorView::Empty => "empty command"@,
        CommandErrorView::ExpectedArray => "expected RESP array command"@,
        CommandErrorView::ExpectedBulk => "expected bulk string argument"@,
        CommandErrorView::InvalidUtf8 => "invalid UTF-8 in command or key"@,
        CommandErrorView::InvalidInteger => "value is not an integer or is out of range"@,
        CommandErrorView::WrongArity(name) => "wrong number of arguments for '"@ + name + "'"@,
        CommandErrorView::Unknown(name) => "unknown command '"@ + name + "'"@,
    }
}

/// The answer to a frame that is not a command.
pub open spec fn error_reply_spec(e: CommandErrorView) -> FrameView {
    FrameView::Error("ERR "@ + message_spec(e))
}

/// The answer to a command that could not be recorded in the append-only file.
pub open spec fn persist_failure_spec() -> FrameView {
    FrameView::Error("ERR failed to persist command"@)
}

impl CommandError {
    /// The text of this error.
    pub fn message(&self) -> (r: String)
        ensures
            r@ == message_spec(self@),
    {
        match self {
            CommandError::Empty => "empty command".to_string(),
            CommandError::ExpectedArray => "expected RESP array command".to_string(),
            CommandError::ExpectedBulk => "expected bulk string argument".to_string(),
            CommandError::InvalidUtf8 => "invalid UTF-8 in command or key".to_string(),
            CommandError::InvalidInteger => "value is not an integer or is out of range".to_string(),
            CommandError::WrongArity(name) => {
                let mut text = "wrong number of arguments for '".to_string();
                text.append(name);
                text.append("'");
                text
            },
            CommandError::Unknown(name) => {
                let mut text = "unknown command '".to_string();
                text.append(name.as_str());
                text.append("'");
                text
            },
        }
    }
}

/// The answer to a frame that is not a command: the error's text after `ERR `.
pub fn error_reply(e: &CommandError) -> (f: Frame)
    ensures
        f@ == error_reply_spec(e@),
{
    let mut text = "ERR ".to_string();
    let message = e.message();
    text.append(message.as_str());
    Frame::Error(text)
}

/// The answer to a command that could not be recorded in the append-only file.
pub fn persist_failure_reply() -> (f: Frame)
    ensures
        f@ == persist_failure_spec(),
{
    Frame::Error("ERR failed to persist command".to_string())
}

} // verus!
