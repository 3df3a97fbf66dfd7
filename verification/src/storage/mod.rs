pub mod laws;
pub mod table;

use std::collections::VecDeque;

use vstd::prelude::*;
use vstd::set_lib::lemma_len_subset;
use vstd::slice::slice_to_vec;

use crate::clock::now_nanos;

use table::{expired_keys, is_expired, Entry, EntryTable, EntryView, Value, ValueView};

verus! {

/// The answer to an operation on a key that holds a value of another kind.
#[derive(Debug, Clone, Copy, PartialEq, Eq)]
pub enum StoreError {
    WrongType,
}

/// The time to live of a key.
#[derive(Debug, Clone, PartialEq, Eq)]
pub enum Ttl {
    Missing,
    NoExpiration,
    Seconds(u64),
}

/// The integer that Redis answers for a time to live: -2 for a missing key,
/// -1 for a key without expiration, else the seconds, at most `i64::MAX`.
pub open spec fn redis_integer(t: Ttl) -> int {
    match t {
        Ttl::Missing => -2,
        Ttl::NoExpiration => -1,
        Ttl::Seconds(s) => if s <= i64::MAX {
            s as int
        } else {
            i64::MAX as int
        },
    }
}

impl Ttl {
    /// The integer that Redis answers for this time to live.
    pub fn as_redis_integer(&self) -> (r: i64)
        ensures
            r == redis_integer(*self),
    {
        match self {
            Ttl::Missing => -2,
            Ttl::NoExpiration => -1,
            Ttl::Seconds(seconds) => {
                if *seconds <= i64::MAX as u64 {
                    *seconds as i64
                } else {
                    i64::MAX
                }
            },
        }
    }
}

/// The latest time that the system clock can represent, in nanoseconds since
/// the Unix epoch: `i64::MAX` seconds and 999 999 999 nanoseconds.
pub const MAX_TIME_NANOS: i128 = 9223372036854775807999999999;

pub const NANOS_PER_SECOND: i128 = 1000000000;

/// The map without the entry of `k` if that entry has expired at `now`.
pub open spec fn purge(m: Map<Seq<char>, EntryView>, k: Seq<char>, now: int) -> Map<
    Seq<char>,
    EntryView,
> {
    if m.contains_key(k) && is_expired(m[k], now) {
        m.remove(k)
    } else {
        m
    }
}

/// `seconds` after `now`; `now` itself where the clock cannot represent that time.
pub open spec fn deadline_after(now: int, seconds: int) -> int {
    if now + seconds * NANOS_PER_SECOND <= MAX_TIME_NANOS {
        now + seconds * NANOS_PER_SECOND
    } else {
        now
    }
}

/// `unix_seconds` after the Unix epoch; `now` where the clock cannot represent that time.
pub open spec fn unix_deadline(unix_seconds: int, now: int) -> int {
    if unix_seconds <= i64::MAX {
        unix_seconds * NANOS_PER_SECOND
    } else {
        now
    }
}

/// Reading the string of `k` at `now`, after deleting its entry if that has expired.
pub open spec fn get_spec(m: Map<Seq<char>, EntryView>, k: Seq<char>, now: int) -> (Map<
    Seq<char>,
    EntryView,
>, Result<Option<Seq<u8>>, StoreError>) {
    let m1 = purge(m, k, now);
    if !m1.contains_key(k) {
        (m1, Ok(None))
    } else {
        match m1[k].value {
            ValueView::String(v) => (m1, Ok(Some(v))),
            ValueView::List(_) => (m1, Err(StoreError::WrongType)),
        }
    }
}

/// Whether `k` holds an entry that has not expired at `now`.
pub open spec fn live(m: Map<Seq<char>, EntryView>, k: Seq<char>, now: int) -> bool {
    m.contains_key(k) && !is_expired(m[k], now)
}

/// Deleting the keys one after the other: the map after, and how many of
/// them held a live entry when their turn came.
pub open spec fn del_spec(m: Map<Seq<char>, EntryView>, keys: Seq<Seq<char>>, now: int) -> (Map<
    Seq<char>,
    EntryView,
>, nat)
    decreases keys.len(),
{
    if keys.len() == 0 {
        (m, 0)
    } else {
        let (m1, c) = del_spec(m, keys.drop_last(), now);
        let k = keys.last();
        (m1.remove(k), c + if live(m1, k, now) { 1nat } else { 0nat })
    }
}

/// Looking the keys up one after the other: the map after (expired entries of
/// those keys gone), and how many of them held a live entry.
pub open spec fn exists_spec(m: Map<Seq<char>, EntryView>, keys: Seq<Seq<char>>, now: int) -> (Map<
    Seq<char>,
    EntryView,
>, nat)
    decreases keys.len(),
{
    if keys.len() == 0 {
        (m, 0)
    } else {
        let (m1, c) = exists_spec(m, keys.drop_last(), now);
        let k = keys.last();
        (purge(m1, k, now), c + if live(m1, k, now) { 1nat } else { 0nat })
    }
}

/// Setting the expiration of `k` to `t`: a time not after `now` deletes the key.
pub open spec fn expire_at_spec(m: Map<Seq<char>, EntryView>, k: Seq<char>, t: int, now: int) -> (Map<
    Seq<char>,
    EntryView,
>, bool) {
    let m1 = purge(m, k, now);
    if t <= now {
        (m1.remove(k), m1.contains_key(k))
    } else if !m1.contains_key(k) {
        (m1, false)
    } else {
        (m1.insert(k, EntryView { expires_at: Some(t), ..m1[k] }), true)
    }
}

/// The time to live of `k` at `now`: the whole seconds left before its expiration.
pub open spec fn ttl_spec(m: Map<Seq<char>, EntryView>, k: Seq<char>, now: int) -> (Map<
    Seq<char>,
    EntryView,
>, Ttl) {
    let m1 = purge(m, k, now);
    if !m1.contains_key(k) {
        (m1, Ttl::Missing)
    } else {
        match m1[k].expires_at {
            None => (m1, Ttl::NoExpiration),
            Some(t) => (m1, Ttl::Seconds(((t - now) / NANOS_PER_SECOND as int) as u64)),
        }
    }
}

/// Removing the expiration of `k` at `now`; answers whether it had one.
pub open spec fn persist_spec(m: Map<Seq<char>, EntryView>, k: Seq<char>, now: int) -> (Map<
    Seq<char>,
    EntryView,
>, bool) {
    let m1 = purge(m, k, now);
    if !m1.contains_key(k) {
        (m1, false)
    } else if m1[k].expires_at is None {
        (m1, false)
    } else {
        (m1.insert(k, EntryView { expires_at: None, ..m1[k] }), true)
    }
}

/// Pushing `values` onto the list of `k`, one after the other, at the front
/// (`front`) or at the back; a missing key starts as an empty list.
pub open spec fn push_spec(
    m: Map<Seq<char>, EntryView>,
    k: Seq<char>,
    values: Seq<Seq<u8>>,
    front: bool,
    now: int,
) -> (Map<Seq<char>, EntryView>, Result<usize, StoreError>) {
    let m1 = purge(m, k, now);
    let (list, expires_at) = if m1.contains_key(k) {
        (m1[k].value, m1[k].expires_at)
    } else {
        (ValueView::List(Seq::empty()), None)
    };
    match list {
        ValueView::String(_) => (m1, Err(StoreError::WrongType)),
        ValueView::List(l) => {
            let nl = if front {
                values.reverse() + l
            } else {
                l + values
            };
            (
                m1.insert(k, EntryView { value: ValueView::List(nl), expires_at }),
                Ok(nl.len() as usize),
            )
        },
    }
}

/// Popping from the front (`front`) or the back of the list of `k`; a list
/// left empty is deleted.
pub open spec fn pop_spec(m: Map<Seq<char>, EntryView>, k: Seq<char>, front: bool, now: int) -> (Map<
    Seq<char>,
    EntryView,
>, Result<Option<Seq<u8>>, StoreError>) {
    let m1 = purge(m, k, now);
    if !m1.contains_key(k) {
        (m1, Ok(None))
    } else {
        match m1[k].value {
            ValueView::String(_) => (m1, Err(StoreError::WrongType)),
            ValueView::List(l) => if l.len() == 0 {
                (m1.remove(k), Ok(None))
            } else {
                let v = if front {
                    l[0]
                } else {
                    l.last()
                };
                let nl = if front {
                    l.drop_first()
                } else {
                    l.drop_last()
                };
                if nl.len() == 0 {
                    (m1.remove(k), Ok(Some(v)))
                } else {
                    (m1.insert(k, EntryView { value: ValueView::List(nl), ..m1[k] }), Ok(Some(v)))
                }
            },
        }
    }
}

/// The Redis reading of a range over a list of `len` items: negative indices
/// count from the end; the range is clipped to the list; `None` when it is empty.
pub open spec fn normalize_range_spec(len: int, start: int, stop: int) -> Option<(int, int)> {
    if len == 0 {
        None
    } else {
        let s = if start < 0 {
            len + start
        } else {
            start
        };
        let e = if stop < 0 {
            len + stop
        } else {
            stop
        };
        let s = if s < 0 {
            0
        } else {
            s
        };
        if e < 0 || s >= len {
            None
        } else {
            let e = if e >= len {
                len - 1
            } else {
                e
            };
            if s <= e {
                Some((s, e))
            } else {
                None
            }
        }
    }
}

/// The items `start..=stop` of the list of `k` at `now`.
pub open spec fn lrange_spec(
    m: Map<Seq<char>, EntryView>,
    k: Seq<char>,
    start: int,
    stop: int,
    now: int,
) -> (Map<Seq<char>, EntryView>, Result<Seq<Seq<u8>>, StoreError>) {
    let m1 = purge(m, k, now);
    if !m1.contains_key(k) {
        (m1, Ok(Seq::empty()))
    } else {
        match m1[k].value {
            ValueView::String(_) => (m1, Err(StoreError::WrongType)),
            ValueView::List(l) => match normalize_range_spec(l.len() as int, start, stop) {
                None => (m1, Ok(Seq::empty())),
                Some((a, b)) => (m1, Ok(l.subrange(a, b + 1))),
            },
        }
    }
}

pub open spec fn bytes_result(r: Result<Option<Vec<u8>>, StoreError>) -> Result<
    Option<Seq<u8>>,
    StoreError,
> {
    match r {
        Ok(Some(v)) => Ok(Some(v@)),
        Ok(None) => Ok(None),
        Err(e) => Err(e),
    }
}

pub open spec fn list_result(r: Result<Vec<Vec<u8>>, StoreError>) -> Result<
    Seq<Seq<u8>>,
    StoreError,
> {
    match r {
        Ok(v) => Ok(v@.map_values(|x: Vec<u8>| x@)),
        Err(e) => Err(e),
    }
}

/// Normalizes a Redis index range over a list of `len` items.
pub fn normalize_range(len: usize, start: i64, stop: i64) -> (r: Option<(usize, usize)>)
    ensures
        match r {
            Some((a, b)) => normalize_range_spec(len as int, start as int, stop as int) == Some(
                (a as int, b as int),
            ),
            None => normalize_range_spec(len as int, start as int, stop as int) is None,
        },
{
    if len == 0 {
        return None;
    }
    let len = len as i128;
    let mut start: i128 = if start < 0 {
        len + start as i128
    } else {
        start as i128
    };
    let mut stop: i128 = if stop < 0 {
        len + stop as i128
    } else {
        stop as i128
    };
    if start < 0 {
        start = 0;
    }
    if stop < 0 || start >= len {
        return None;
    }
    if stop >= len {
        stop = len - 1;
    }
    if start <= stop {
        Some((start as usize, stop as usize))
    } else {
        None
    }
}

/// The keys as character sequences.
pub open spec fn key_names(keys: Seq<String>) -> Seq<Seq<char>> {
    keys.map_values(|k: String| k@)
}

/// The byte strings as byte sequences.
pub open spec fn byte_strings(values: Seq<Vec<u8>>) -> Seq<Seq<u8>> {
    values.map_values(|v: Vec<u8>| v@)
}

/// Whether every expiration time in the map can be represented by the clock.
pub open spec fn expirations_in_range(m: Map<Seq<char>, EntryView>) -> bool {
    forall|k: Seq<char>| #[trigger]
        m.contains_key(k) ==> (m[k].expires_at matches Some(t) ==> t <= MAX_TIME_NANOS)
}

/// The nanoseconds from `earlier` to `later`, which does not come before it.
fn nanos_between(earlier: i128, later: i128) -> (r: u128)
    requires
        earlier <= later,
    ensures
        r == later - earlier,
{
    if earlier >= 0 || later < 0 {
        (later - earlier) as u128
    } else {
        later as u128 + (-(earlier + 1)) as u128 + 1
    }
}

/// The entries of a [`MemoryStore`], with the expirations they hold.
struct StoreState {
    entries: EntryTable,
}

impl View for StoreState {
    type V = Map<Seq<char>, EntryView>;

    closed spec fn view(&self) -> Map<Seq<char>, EntryView> {
        self.entries@
    }
}

impl StoreState {
    spec fn wf(&self) -> bool {
        &&& self.entries.wf()
        &&& expirations_in_range(self.entries@)
    }

    fn new() -> (s: Self)
        ensures
            s.wf(),
            s@ == Map::<Seq<char>, EntryView>::empty(),
    {
        StoreState { entries: EntryTable::new() }
    }

    /// Stores `value` as the string of `key`, without expiration, replacing
    /// whatever the key held.
    fn set(&mut self, key: String, value: Vec<u8>)
        requires
            old(self).wf(),
        ensures
            final(self).wf(),
            final(self)@ == old(self)@.insert(
                key@,
                EntryView { value: ValueView::String(value@), expires_at: None },
            ),
    {
        self.entries.insert(key, Entry { value: Value::String(value), expires_at: None });
    }

    /// Deletes the entry of `key` if it has expired at `now`.
    fn remove_if_expired(&mut self, key: &str, now: i128)
        requires
            old(self).wf(),
        ensures
            final(self).wf(),
            final(self)@ == purge(old(self)@, key@, now as int),
    {
        let expired = match self.entries.get(key) {
            Some(entry) => entry.is_expired(now),
            None => false,
        };
        if expired {
            self.entries.remove(key);
        } else {
            assert(self@ == purge(old(self)@, key@, now as int));
        }
    }

    /// Looks up the string of `key` at time `now`.
    fn get_at(&mut self, key: &str, now: i128) -> (r: Result<Option<Vec<u8>>, StoreError>)
        requires
            old(self).wf(),
        ensures
            final(self).wf(),
            final(self)@ == get_spec(old(self)@, key@, now as int).0,
            bytes_result(r) == get_spec(old(self)@, key@, now as int).1,
    {
        self.remove_if_expired(key, now);
        match self.entries.get(key) {
            None => Ok(None),
            Some(entry) => match &entry.value {
                Value::String(value) => Ok(Some(slice_to_vec(value.as_slice()))),
                Value::List(_) => Err(StoreError::WrongType),
            },
        }
    }

    /// Deletes the keys at time `now`, one after the other, and counts those
    /// that held a live entry.
    fn del_at(&mut self, keys: &[String], now: i128) -> (count: usize)
        requires
            old(self).wf(),
        ensures
            final(self).wf(),
            final(self)@ == del_spec(old(self)@, key_names(keys@), now as int).0,
            count == del_spec(old(self)@, key_names(keys@), now as int).1,
    {
        let ghost names = key_names(keys@);
        let mut count: usize = 0;
        let mut i: usize = 0;
        while i < keys.len()
            invariant
                self.wf(),
                i <= keys.len(),
                names == key_names(keys@),
                count <= i,
                (self@, count as nat) == del_spec(old(self)@, names.take(i as int), now as int),
            decreases keys.len() - i,
        {
            let key = keys[i].as_str();
            proof {
                assert(names.take(i + 1).drop_last() =~= names.take(i as int));
                assert(names.take(i + 1).last() == key@);
            }
            let was_live = match self.entries.get(key) {
                Some(entry) => !entry.is_expired(now),
                None => false,
            };
            self.entries.remove(key);
            if was_live {
                count = count + 1;
            }
            i = i + 1;
        }
        assert(names.take(keys.len() as int) =~= names);
        count
    }

    /// Counts, at time `now`, the keys that hold a live entry (a key named
    /// twice counts twice).
    fn exists_at(&mut self, keys: &[String], now: i128) -> (count: usize)
        requires
            old(self).wf(),
        ensures
            final(self).wf(),
            final(self)@ == exists_spec(old(self)@, key_names(keys@), now as int).0,
            count == exists_spec(old(self)@, key_names(keys@), now as int).1,
    {
        let ghost names = key_names(keys@);
        let mut count: usize = 0;
        let mut i: usize = 0;
        while i < keys.len()
            invariant
                self.wf(),
                i <= keys.len(),
                names == key_names(keys@),
                count <= i,
                (self@, count as nat) == exists_spec(old(self)@, names.take(i as int), now as int),
            decreases keys.len() - i,
        {
            let key = keys[i].as_str();
            proof {
                assert(names.take(i + 1).drop_last() =~= names.take(i as int));
                assert(names.take(i + 1).last() == key@);
            }
            self.remove_if_expired(key, now);
            if self.entries.contains_key(key) {
                count = count + 1;
            }
            i = i + 1;
        }
        assert(names.take(keys.len() as int) =~= names);
        count
    }

    /// Sets, at time `now`, the expiration of `key` to `expires_at`; a time
    /// not after `now` deletes the key. Says whether the key was there.
    fn expire_at(&mut self, key: &str, expires_at: i128, now: i128) -> (r: bool)
        requires
            old(self).wf(),
            expires_at <= MAX_TIME_NANOS,
        ensures
            final(self).wf(),
            final(self)@ == expire_at_spec(old(self)@, key@, expires_at as int, now as int).0,
            r == expire_at_spec(old(self)@, key@, expires_at as int, now as int).1,
    {
        self.remove_if_expired(key, now);
        if expires_at <= now {
            return self.entries.remove(key);
        }
        if !self.entries.contains_key(key) {
            return false;
        }
        let placeholder = Entry { value: Value::String(Vec::new()), expires_at: None };
        let previous = self.entries.replace(key, placeholder);
        let Entry { value, expires_at: _ } = previous;
        self.entries.replace(key, Entry { value, expires_at: Some(expires_at) });
        proof {
            assert(self@ =~= expire_at_spec(old(self)@, key@, expires_at as int, now as int).0);
        }
        true
    }

    /// Sets, at time `now`, the expiration of `key` to `seconds` later.
    fn expire_in(&mut self, key: &str, seconds: u64, now: i128) -> (r: bool)
        requires
            old(self).wf(),
        ensures
            final(self).wf(),
            final(self)@ == expire_at_spec(
                old(self)@,
                key@,
                deadline_after(now as int, seconds as int),
                now as int,
            ).0,
            r == expire_at_spec(
                old(self)@,
                key@,
                deadline_after(now as int, seconds as int),
                now as int,
            ).1,
    {
        let step = seconds as i128 * NANOS_PER_SECOND;
        let expires_at = if now <= MAX_TIME_NANOS - step {
            now + step
        } else {
            now
        };
        if expires_at <= MAX_TIME_NANOS {
            self.expire_at(key, expires_at, now)
        } else {
            // The clock reads beyond what it can represent; `expires_at` is `now`.
            self.remove_if_expired(key, now);
            self.entries.remove(key)
        }
    }

    /// Sets, at time `now`, the expiration of `key` to `unix_seconds` after the Unix epoch.
    fn expire_at_unix_at(&mut self, key: &str, unix_seconds: u64, now: i128) -> (r: bool)
        requires
            old(self).wf(),
        ensures
            final(self).wf(),
            final(self)@ == expire_at_spec(
                old(self)@,
                key@,
                unix_deadline(unix_seconds as int, now as int),
                now as int,
            ).0,
            r == expire_at_spec(
                old(self)@,
                key@,
                unix_deadline(unix_seconds as int, now as int),
                now as int,
            ).1,
    {
        if unix_seconds <= i64::MAX as u64 {
            self.expire_at(key, unix_seconds as i128 * NANOS_PER_SECOND, now)
        } else if now <= MAX_TIME_NANOS {
            self.expire_at(key, now, now)
        } else {
            self.remove_if_expired(key, now);
            self.entries.remove(key)
        }
    }

    /// The time to live of `key` at time `now`.
    fn ttl_at(&mut self, key: &str, now: i128) -> (r: Ttl)
        requires
            old(self).wf(),
        ensures
            final(self).wf(),
            final(self)@ == ttl_spec(old(self)@, key@, now as int).0,
            r == ttl_spec(old(self)@, key@, now as int).1,
    {
        self.remove_if_expired(key, now);
        match self.entries.get(key) {
            None => Ttl::Missing,
            Some(entry) => match entry.expires_at {
                None => Ttl::NoExpiration,
                Some(t) => {
                    let left = nanos_between(now, t);
                    Ttl::Seconds((left / 1000000000u128) as u64)
                },
            },
        }
    }

    /// Removes, at time `now`, the expiration of `key`; says whether it had one.
    fn persist_at(&mut self, key: &str, now: i128) -> (r: bool)
        requires
            old(self).wf(),
        ensures
            final(self).wf(),
            final(self)@ == persist_spec(old(self)@, key@, now as int).0,
            r == persist_spec(old(self)@, key@, now as int).1,
    {
        self.remove_if_expired(key, now);
        let has_expiration = match self.entries.get(key) {
            None => false,
            Some(entry) => entry.expires_at.is_some(),
        };
        if !has_expiration {
            return false;
        }
        let placeholder = Entry { value: Value::String(Vec::new()), expires_at: None };
        let previous = self.entries.replace(key, placeholder);
        let Entry { value, expires_at: _ } = previous;
        self.entries.replace(key, Entry { value, expires_at: None });
        proof {
            assert(self@ =~= persist_spec(old(self)@, key@, now as int).0);
        }
        true
    }

    /// Deletes every entry that has expired at `now`, and counts them.
    fn cleanup_expired_at(&mut self, now: i128) -> (removed: usize)
        requires
            old(self).wf(),
        ensures
            final(self).wf(),
            final(self)@ == old(self)@.remove_keys(expired_keys(old(self)@, now as int)),
            removed == expired_keys(old(self)@, now as int).len(),
            old(self)@.dom().finite(),
            final(self)@.dom().finite(),
            removed == old(self)@.len() - final(self)@.len(),
    {
        proof {
            self.entries.lemma_finite();
            let e = expired_keys(self@, now as int);
            lemma_len_subset(e, self@.dom());
            self@.lemma_remove_keys_len(e);
        }
        let removed = self.entries.remove_expired(now);
        proof {
            self.entries.lemma_finite();
        }
        removed
    }

    /// Pushes `values` at time `now`, one after the other, onto the front
    /// (`front`) or the back of the list of `key`; gives the new length.
    fn push_at(&mut self, key: String, values: Vec<Vec<u8>>, front: bool, now: i128) -> (r: Result<
        usize,
        StoreError,
    >)
        requires
            old(self).wf(),
        ensures
            final(self).wf(),
            final(self)@ == push_spec(
                old(self)@,
                key@,
                byte_strings(values@),
                front,
                now as int,
            ).0,
            r == push_spec(old(self)@, key@, byte_strings(values@), front, now as int).1,
    {
        let ghost vals = byte_strings(values@);
        self.remove_if_expired(key.as_str(), now);
        let ghost m1 = self@;
        let (mut list, expires_at) = if self.entries.contains_key(key.as_str()) {
            let placeholder = Entry { value: Value::String(Vec::new()), expires_at: None };
            let previous = self.entries.replace(key.as_str(), placeholder);
            let Entry { value, expires_at } = previous;
            match value {
                Value::String(s) => {
                    self.entries.replace(key.as_str(), Entry { value: Value::String(s), expires_at });
                    proof {
                        assert(self@ =~= m1);
                    }
                    return Err(StoreError::WrongType);
                },
                Value::List(list) => (list, expires_at),
            }
        } else {
            (VecDeque::new(), None)
        };
        let ghost l0 = list@.map_values(|v: Vec<u8>| v@);
        let ghost mut pushed: int = 0;
        for v in it: values
            invariant
                vals == it.seq().map_values(|v: Vec<u8>| v@),
                pushed == it.index(),
                list@.map_values(|v: Vec<u8>| v@) == if front {
                    vals.take(pushed).reverse() + l0
                } else {
                    l0 + vals.take(pushed)
                },
        {
            let ghost before = list@;
            if front {
                list.push_front(v);
            } else {
                list.push_back(v);
            }
            proof {
                assert(it.seq()[pushed] == v);
                assert(vals[pushed] == v@);
                if front {
                    assert(vals.take(pushed + 1).reverse() =~= seq![v@] + vals.take(pushed).reverse());
                    assert(list@.map_values(|v: Vec<u8>| v@) =~= seq![v@] + before.map_values(|v: Vec<u8>| v@));
                } else {
                    assert(vals.take(pushed + 1) =~= vals.take(pushed).push(v@));
                    assert(list@.map_values(|v: Vec<u8>| v@) =~= before.map_values(|v: Vec<u8>| v@).push(v@));
                }
                pushed = pushed + 1;
            }
        }
        proof {
            assert(vals.take(pushed) =~= vals);
        }
        let len = list.len();
        self.entries.insert(key, Entry { value: Value::List(list), expires_at });
        Ok(len)
    }

    /// Pushes `values` at time `now`, one after the other, onto the front of
    /// the list of `key`; gives the new length.
    fn lpush_at(&mut self, key: String, values: Vec<Vec<u8>>, now: i128) -> (r: Result<
        usize,
        StoreError,
    >)
        requires
            old(self).wf(),
        ensures
            final(self).wf(),
            final(self)@ == push_spec(
                old(self)@,
                key@,
                byte_strings(values@),
                true,
                now as int,
            ).0,
            r == push_spec(old(self)@, key@, byte_strings(values@), true, now as int).1,
    {
        self.push_at(key, values, true, now)
    }

    /// Pushes `values` at time `now`, one after the other, onto the back of
    /// the list of `key`; gives the new length.
    fn rpush_at(&mut self, key: String, values: Vec<Vec<u8>>, now: i128) -> (r: Result<
        usize,
        StoreError,
    >)
        requires
            old(self).wf(),
        ensures
            final(self).wf(),
            final(self)@ == push_spec(
                old(self)@,
                key@,
                byte_strings(values@),
                false,
                now as int,
            ).0,
            r == push_spec(old(self)@, key@, byte_strings(values@), false, now as int).1,
    {
        self.push_at(key, values, false, now)
    }

    /// Pops, at time `now`, from the front (`front`) or the back of the list
    /// of `key`; a list left empty is deleted.
    fn pop_at(&mut self, key: &str, front: bool, now: i128) -> (r: Result<Option<Vec<u8>>, StoreError>)
        requires
            old(self).wf(),
        ensures
            final(self).wf(),
            final(self)@ == pop_spec(old(self)@, key@, front, now as int).0,
            bytes_result(r) == pop_spec(old(self)@, key@, front, now as int).1,
    {
        self.remove_if_expired(key, now);
        let ghost m1 = self@;
        if !self.entries.contains_key(key) {
            return Ok(None);
        }
        let placeholder = Entry { value: Value::String(Vec::new()), expires_at: None };
        let previous = self.entries.replace(key, placeholder);
        let Entry { value, expires_at } = previous;
        match value {
            Value::String(s) => {
                self.entries.replace(key, Entry { value: Value::String(s), expires_at });
                proof {
                    assert(self@ =~= m1);
                }
                Err(StoreError::WrongType)
            },
            Value::List(mut list) => {
                let ghost l = list@;
                let popped = if front {
                    list.pop_front()
                } else {
                    list.pop_back()
                };
                proof {
                    let lm = l.map_values(|v: Vec<u8>| v@);
                    if l.len() > 0 {
                        if front {
                            assert(list@.map_values(|v: Vec<u8>| v@) =~= lm.drop_first());
                        } else {
                            assert(list@.map_values(|v: Vec<u8>| v@) =~= lm.drop_last());
                        }
                    }
                }
                if list.len() == 0 {
                    self.entries.remove(key);
                } else {
                    self.entries.replace(key, Entry { value: Value::List(list), expires_at });
                }
                Ok(popped)
            },
        }
    }

    /// Pops, at time `now`, from the front of the list of `key`.
    fn lpop_at(&mut self, key: &str, now: i128) -> (r: Result<Option<Vec<u8>>, StoreError>)
        requires
            old(self).wf(),
        ensures
            final(self).wf(),
            final(self)@ == pop_spec(old(self)@, key@, true, now as int).0,
            bytes_result(r) == pop_spec(old(self)@, key@, true, now as int).1,
    {
        self.pop_at(key, true, now)
    }

    /// Pops, at time `now`, from the back of the list of `key`.
    fn rpop_at(&mut self, key: &str, now: i128) -> (r: Result<Option<Vec<u8>>, StoreError>)
        requires
            old(self).wf(),
        ensures
            final(self).wf(),
            final(self)@ == pop_spec(old(self)@, key@, false, now as int).0,
            bytes_result(r) == pop_spec(old(self)@, key@, false, now as int).1,
    {
        self.pop_at(key, false, now)
    }

    /// The items `start..=stop` of the list of `key` at time `now`, with
    /// negative indices counting from the end.
    fn lrange_at(&mut self, key: &str, start: i64, stop: i64, now: i128) -> (r: Result<
        Vec<Vec<u8>>,
        StoreError,
    >)
        requires
            old(self).wf(),
        ensures
            final(self).wf(),
            final(self)@ == lrange_spec(old(self)@, key@, start as int, stop as int, now as int).0,
            list_result(r) == lrange_spec(old(self)@, key@, start as int, stop as int, now as int).1,
    {
        self.remove_if_expired(key, now);
        let nothing: Vec<Vec<u8>> = Vec::new();
        assert(nothing@.map_values(|x: Vec<u8>| x@) =~= Seq::<Seq<u8>>::empty());
        let entry = match self.entries.get(key) {
            None => {
                return Ok(nothing);
            },
            Some(entry) => entry,
        };
        let list = match &entry.value {
            Value::String(_) => {
                return Err(StoreError::WrongType);
            },
            Value::List(list) => list,
        };
        let ghost lm = list@.map_values(|v: Vec<u8>| v@);
        let (a, b) = match normalize_range(list.len(), start, stop) {
            None => {
                return Ok(nothing);
            },
            Some(range) => range,
        };
        let mut out: Vec<Vec<u8>> = Vec::new();
        let mut j: usize = a;
        while j <= b
            invariant
                a <= j <= b + 1,
                b < list.len(),
                lm == list@.map_values(|v: Vec<u8>| v@),
                out@.map_values(|x: Vec<u8>| x@) == lm.subrange(a as int, j as int),
            decreases b + 1 - j,
        {
            let item = slice_to_vec(list[j].as_slice());
            let ghost before = out@;
            out.push(item);
            proof {
                assert(lm[j as int] == item@);
                assert(out@ == before.push(item));
                assert(out@.map_values(|x: Vec<u8>| x@) =~= before.map_values(|x: Vec<u8>| x@).push(item@));
                assert(lm.subrange(a as int, j + 1) =~= lm.subrange(a as int, j as int).push(lm[j as int]));
            }
            j = j + 1;
        }
        Ok(out)
    }

}

/// An in-memory key-value store of binary-safe strings and lists, with
/// expiration. Times are nanoseconds since the Unix epoch; an entry whose
/// expiration time is not after the present is deleted when its key is next
/// used, or by a cleanup.
pub struct MemoryStore {
    state: StoreState,
}

impl View for MemoryStore {
    type V = Map<Seq<char>, EntryView>;

    closed spec fn view(&self) -> Map<Seq<char>, EntryView> {
        self.state@
    }
}

impl Default for MemoryStore {
    fn default() -> (s: Self)
        ensures
            s@ == Map::<Seq<char>, EntryView>::empty(),
    {
        MemoryStore::new()
    }
}

impl MemoryStore {
    #[verifier::type_invariant]
    spec fn inv(&self) -> bool {
        self.state.wf()
    }

    pub fn new() -> (s: Self)
        ensures
            s@ == Map::<Seq<char>, EntryView>::empty(),
    {
        MemoryStore { state: StoreState::new() }
    }

    /// Stores `value` as the string of `key`, without expiration, replacing
    /// whatever the key held.
    pub fn set(&mut self, key: String, value: Vec<u8>)
        ensures
            final(self)@ == old(self)@.insert(
                key@,
                EntryView { value: ValueView::String(value@), expires_at: None },
            ),
    {
        proof {
            use_type_invariant(&*self);
        }
        let mut state = StoreState::new();
        std::mem::swap(&mut state, &mut self.state);
        state.set(key, value);
        self.state = state;
    }

    /// Looks up the string of `key` at time `now`.
    pub fn get_at(&mut self, key: &str, now: i128) -> (r: Result<Option<Vec<u8>>, StoreError>)
        ensures
            final(self)@ == get_spec(old(self)@, key@, now as int).0,
            bytes_result(r) == get_spec(old(self)@, key@, now as int).1,
    {
        proof {
            use_type_invariant(&*self);
        }
        let mut state = StoreState::new();
        std::mem::swap(&mut state, &mut self.state);
        let r = state.get_at(key, now);
        self.state = state;
        r
    }

    /// Deletes the keys at time `now`, one after the other, and counts those
    /// that held a live entry.
    pub fn del_at(&mut self, keys: &[String], now: i128) -> (count: usize)
        ensures
            final(self)@ == del_spec(old(self)@, key_names(keys@), now as int).0,
            count == del_spec(old(self)@, key_names(keys@), now as int).1,
    {
        proof {
            use_type_invariant(&*self);
        }
        let mut state = StoreState::new();
        std::mem::swap(&mut state, &mut self.state);
        let r = state.del_at(keys, now);
        self.state = state;
        r
    }

    /// Counts, at time `now`, the keys that hold a live entry (a key named
    /// twice counts twice).
    pub fn exists_at(&mut self, keys: &[String], now: i128) -> (count: usize)
        ensures
            final(self)@ == exists_spec(old(self)@, key_names(keys@), now as int).0,
            count == exists_spec(old(self)@, key_names(keys@), now as int).1,
    {
        proof {
            use_type_invariant(&*self);
        }
        let mut state = StoreState::new();
        std::mem::swap(&mut state, &mut self.state);
        let r = state.exists_at(keys, now);
        self.state = state;
        r
    }

    /// Sets, at time `now`, the expiration of `key` to `expires_at`; a time
    /// not after `now` deletes the key. Says whether the key was there.
    pub fn expire_at(&mut self, key: &str, expires_at: i128, now: i128) -> (r: bool)
        requires
            expires_at <= MAX_TIME_NANOS,
        ensures
            final(self)@ == expire_at_spec(old(self)@, key@, expires_at as int, now as int).0,
            r == expire_at_spec(old(self)@, key@, expires_at as int, now as int).1,
    {
        proof {
            use_type_invariant(&*self);
        }
        let mut state = StoreState::new();
        std::mem::swap(&mut state, &mut self.state);
        let r = state.expire_at(key, expires_at, now);
        self.state = state;
        r
    }

    /// Sets, at time `now`, the expiration of `key` to `seconds` later.
    pub fn expire_in(&mut self, key: &str, seconds: u64, now: i128) -> (r: bool)
        ensures
            final(self)@ == expire_at_spec(
                old(self)@,
                key@,
                deadline_after(now as int, seconds as int),
                now as int,
            ).0,
            r == expire_at_spec(
                old(self)@,
                key@,
                deadline_after(now as int, seconds as int),
                now as int,
            ).1,
    {
        proof {
            use_type_invariant(&*self);
        }
        let mut state = StoreState::new();
        std::mem::swap(&mut state, &mut self.state);
        let r = state.expire_in(key, seconds, now);
        self.state = state;
        r
    }

    /// Sets, at time `now`, the expiration of `key` to `unix_seconds` after the Unix epoch.
    pub fn expire_at_unix_at(&mut self, key: &str, unix_seconds: u64, now: i128) -> (r: bool)
        ensures
            final(self)@ == expire_at_spec(
                old(self)@,
                key@,
                unix_deadline(unix_seconds as int, now as int),
                now as int,
            ).0,
            r == expire_at_spec(
                old(self)@,
                key@,
                unix_deadline(unix_seconds as int, now as int),
                now as int,
            ).1,
    {
        proof {
            use_type_invariant(&*self);
        }
        let mut state = StoreState::new();
        std::mem::swap(&mut state, &mut self.state);
        let r = state.expire_at_unix_at(key, unix_seconds, now);
        self.state = state;
        r
    }

    /// The time to live of `key` at time `now`.
    pub fn ttl_at(&mut self, key: &str, now: i128) -> (r: Ttl)
        ensures
            final(self)@ == ttl_spec(old(self)@, key@, now as int).0,
            r == ttl_spec(old(self)@, key@, now as int).1,
    {
        proof {
            use_type_invariant(&*self);
        }
        let mut state = StoreState::new();
        std::mem::swap(&mut state, &mut self.state);
        let r = state.ttl_at(key, now);
        self.state = state;
        r
    }

    /// Removes, at time `now`, the expiration of `key`; says whether it had one.
    pub fn persist_at(&mut self, key: &str, now: i128) -> (r: bool)
        ensures
            final(self)@ == persist_spec(old(self)@, key@, now as int).0,
            r == persist_spec(old(self)@, key@, now as int).1,
    {
        proof {
            use_type_invariant(&*self);
        }
        let mut state = StoreState::new();
        std::mem::swap(&mut state, &mut self.state);
        let r = state.persist_at(key, now);
        self.state = state;
        r
    }

    /// Deletes every entry that has expired at `now`, and counts them.
    pub fn cleanup_expired_at(&mut self, now: i128) -> (removed: usize)
        ensures
            final(self)@ == old(self)@.remove_keys(expired_keys(old(self)@, now as int)),
            removed == expired_keys(old(self)@, now as int).len(),
            old(self)@.dom().finite(),
            final(self)@.dom().finite(),
            removed == old(self)@.len() - final(self)@.len(),
    {
        proof {
            use_type_invariant(&*self);
        }
        let mut state = StoreState::new();
        std::mem::swap(&mut state, &mut self.state);
        let r = state.cleanup_expired_at(now);
        self.state = state;
        r
    }

    /// Pushes `values` at time `now`, one after the other, onto the front of
    /// the list of `key`; gives the new length.
    pub fn lpush_at(&mut self, key: String, values: Vec<Vec<u8>>, now: i128) -> (r: Result<
        usize,
        StoreError,
    >)
        ensures
            final(self)@ == push_spec(
                old(self)@,
                key@,
                byte_strings(values@),
                true,
                now as int,
            ).0,
            r == push_spec(old(self)@, key@, byte_strings(values@), true, now as int).1,
    {
        proof {
            use_type_invariant(&*self);
        }
        let mut state = StoreState::new();
        std::mem::swap(&mut state, &mut self.state);
        let r = state.lpush_at(key, values, now);
        self.state = state;
        r
    }

    /// Pushes `values` at time `now`, one after the other, onto the back of
    /// the list of `key`; gives the new length.
    pub fn rpush_at(&mut self, key: String, values: Vec<Vec<u8>>, now: i128) -> (r: Result<
        usize,
        StoreError,
    >)
        ensures
            final(self)@ == push_spec(
                old(self)@,
                key@,
                byte_strings(values@),
                false,
                now as int,
            ).0,
            r == push_spec(old(self)@, key@, byte_strings(values@), false, now as int).1,
    {
        proof {
            use_type_invariant(&*self);
        }
        let mut state = StoreState::new();
        std::mem::swap(&mut state, &mut self.state);
        let r = state.rpush_at(key, values, now);
        self.state = state;
        r
    }

    /// Pops, at time `now`, from the front of the list of `key`.
    pub fn lpop_at(&mut self, key: &str, now: i128) -> (r: Result<Option<Vec<u8>>, StoreError>)
        ensures
            final(self)@ == pop_spec(old(self)@, key@, true, now as int).0,
            bytes_result(r) == pop_spec(old(self)@, key@, true, now as int).1,
    {
        proof {
            use_type_invariant(&*self);
        }
        let mut state = StoreState::new();
        std::mem::swap(&mut state, &mut self.state);
        let r = state.lpop_at(key, now);
        self.state = state;
        r
    }

    /// Pops, at time `now`, from the back of the list of `key`.
    pub fn rpop_at(&mut self, key: &str, now: i128) -> (r: Result<Option<Vec<u8>>, StoreError>)
        ensures
            final(self)@ == pop_spec(old(self)@, key@, false, now as int).0,
            bytes_result(r) == pop_spec(old(self)@, key@, false, now as int).1,
    {
        proof {
            use_type_invariant(&*self);
        }
        let mut state = StoreState::new();
        std::mem::swap(&mut state, &mut self.state);
        let r = state.rpop_at(key, now);
        self.state = state;
        r
    }

    /// The items `start..=stop` of the list of `key` at time `now`, with
    /// negative indices counting from the end.
    pub fn lrange_at(&mut self, key: &str, start: i64, stop: i64, now: i128) -> (r: Result<
        Vec<Vec<u8>>,
        StoreError,
    >)
        ensures
            final(self)@ == lrange_spec(old(self)@, key@, start as int, stop as int, now as int).0,
            list_result(r) == lrange_spec(old(self)@, key@, start as int, stop as int, now as int).1,
    {
        proof {
            use_type_invariant(&*self);
        }
        let mut state = StoreState::new();
        std::mem::swap(&mut state, &mut self.state);
        let r = state.lrange_at(key, start, stop, now);
        self.state = state;
        r
    }

    /// Looks up the string of `key` now.
    pub fn get(&mut self, key: &str) -> (r: Result<Option<Vec<u8>>, StoreError>)
        ensures
            exists|now: i128|
                #![trigger get_spec(old(self)@, key@, now as int)]
                final(self)@ == get_spec(old(self)@, key@, now as int).0 && bytes_result(r)
                    == get_spec(old(self)@, key@, now as int).1,
    {
        let now = now_nanos();
        self.get_at(key, now)
    }

    /// Deletes the keys now, and counts those that held a live entry.
    pub fn del(&mut self, keys: &[String]) -> (count: usize)
        ensures
            exists|now: i128|
                #![trigger del_spec(old(self)@, key_names(keys@), now as int)]
                (final(self)@, count as nat) == del_spec(
                    old(self)@,
                    key_names(keys@),
                    now as int,
                ),
    {
        let now = now_nanos();
        self.del_at(keys, now)
    }

    /// Counts, now, the keys that hold a live entry.
    pub fn exists_keys(&mut self, keys: &[String]) -> (count: usize)
        ensures
            exists|now: i128|
                #![trigger exists_spec(old(self)@, key_names(keys@), now as int)]
                (final(self)@, count as nat) == exists_spec(
                    old(self)@,
                    key_names(keys@),
                    now as int,
                ),
    {
        let now = now_nanos();
        self.exists_at(keys, now)
    }

    /// Sets the expiration of `key` to `seconds` from now; 0 deletes the key.
    pub fn expire(&mut self, key: &str, seconds: u64) -> (r: bool)
        ensures
            exists|now: i128|
                #![trigger deadline_after(now as int, seconds as int)]
                (final(self)@, r) == expire_at_spec(
                    old(self)@,
                    key@,
                    deadline_after(now as int, seconds as int),
                    now as int,
                ),
    {
        let now = now_nanos();
        self.expire_in(key, seconds, now)
    }

    /// Sets the expiration of `key` to `unix_seconds` after the Unix epoch.
    pub fn expire_at_unix(&mut self, key: &str, unix_seconds: u64) -> (r: bool)
        ensures
            exists|now: i128|
                #![trigger unix_deadline(unix_seconds as int, now as int)]
                (final(self)@, r) == expire_at_spec(
                    old(self)@,
                    key@,
                    unix_deadline(unix_seconds as int, now as int),
                    now as int,
                ),
    {
        let now = now_nanos();
        self.expire_at_unix_at(key, unix_seconds, now)
    }

    /// The time to live of `key` now.
    pub fn ttl(&mut self, key: &str) -> (r: Ttl)
        ensures
            exists|now: i128|
                #![trigger ttl_spec(old(self)@, key@, now as int)]
                (final(self)@, r) == ttl_spec(old(self)@, key@, now as int),
    {
        let now = now_nanos();
        self.ttl_at(key, now)
    }

    /// Removes the expiration of `key`; says whether it had one.
    pub fn persist(&mut self, key: &str) -> (r: bool)
        ensures
            exists|now: i128|
                #![trigger persist_spec(old(self)@, key@, now as int)]
                (final(self)@, r) == persist_spec(old(self)@, key@, now as int),
    {
        let now = now_nanos();
        self.persist_at(key, now)
    }

    /// Deletes every entry that has expired by now, and counts them.
    pub fn cleanup_expired(&mut self) -> (removed: usize)
        ensures
            exists|now: i128|
                #![trigger expired_keys(old(self)@, now as int)]
                final(self)@ == old(self)@.remove_keys(expired_keys(old(self)@, now as int))
                    && removed == expired_keys(old(self)@, now as int).len(),
            old(self)@.dom().finite(),
            final(self)@.dom().finite(),
            removed == old(self)@.len() - final(self)@.len(),
    {
        let now = now_nanos();
        self.cleanup_expired_at(now)
    }

    /// Pushes `values` now, one after the other, onto the front of the list of `key`.
    pub fn lpush(&mut self, key: String, values: Vec<Vec<u8>>) -> (r: Result<usize, StoreError>)
        ensures
            exists|now: i128|
                #![trigger push_spec(old(self)@, key@, byte_strings(values@), true, now as int)]
                (final(self)@, r) == push_spec(
                    old(self)@,
                    key@,
                    byte_strings(values@),
                    true,
                    now as int,
                ),
    {
        let now = now_nanos();
        self.lpush_at(key, values, now)
    }

    /// Pushes `values` now, one after the other, onto the back of the list of `key`.
    pub fn rpush(&mut self, key: String, values: Vec<Vec<u8>>) -> (r: Result<usize, StoreError>)
        ensures
            exists|now: i128|
                #![trigger push_spec(old(self)@, key@, byte_strings(values@), false, now as int)]
                (final(self)@, r) == push_spec(
                    old(self)@,
                    key@,
                    byte_strings(values@),
                    false,
                    now as int,
                ),
    {
        let now = now_nanos();
        self.rpush_at(key, values, now)
    }

    /// Pops now from the front of the list of `key`.
    pub fn lpop(&mut self, key: &str) -> (r: Result<Option<Vec<u8>>, StoreError>)
        ensures
            exists|now: i128|
                #![trigger pop_spec(old(self)@, key@, true, now as int)]
                final(self)@ == pop_spec(old(self)@, key@, true, now as int).0 && bytes_result(r)
                    == pop_spec(old(self)@, key@, true, now as int).1,
    {
        let now = now_nanos();
        self.lpop_at(key, now)
    }

    /// Pops now from the back of the list of `key`.
    pub fn rpop(&mut self, key: &str) -> (r: Result<Option<Vec<u8>>, StoreError>)
        ensures
            exists|now: i128|
                #![trigger pop_spec(old(self)@, key@, false, now as int)]
                final(self)@ == pop_spec(old(self)@, key@, false, now as int).0 && bytes_result(r)
                    == pop_spec(old(self)@, key@, false, now as int).1,
    {
        let now = now_nanos();
        self.rpop_at(key, now)
    }

    /// The items `start..=stop` of the list of `key` now.
    pub fn lrange(&mut self, key: &str, start: i64, stop: i64) -> (r: Result<Vec<Vec<u8>>, StoreError>)
        ensures
            exists|now: i128|
                #![trigger lrange_spec(old(self)@, key@, start as int, stop as int, now as int)]
                final(self)@ == lrange_spec(old(self)@, key@, start as int, stop as int, now as int).0
                    && list_result(r) == lrange_spec(
                    old(self)@,
                    key@,
                    start as int,
                    stop as int,
                    now as int,
                ).1,
    {
        let now = now_nanos();
        self.lrange_at(key, start, stop, now)
    }

}

} // verus!
