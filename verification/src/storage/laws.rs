use vstd::prelude::*;

use super::table::{expired_keys, is_expired, EntryView, ValueView};
use super::{
    deadline_after, del_spec, exists_spec, expire_at_spec, get_spec, live, lrange_spec,
    normalize_range_spec, persist_spec, pop_spec, purge, push_spec, ttl_spec, unix_deadline,
    StoreError, Ttl, NANOS_PER_SECOND,
};

verus! {

/// The entry that `set` stores: the string, without expiration.
pub open spec fn string_entry(v: Seq<u8>) -> EntryView {
    EntryView { value: ValueView::String(v), expires_at: None }
}

/// A read gives back what a write wrote: right after `set`, `get` (at any
/// time) answers the value and changes nothing.
pub proof fn law_get_after_set(m: Map<Seq<char>, EntryView>, k: Seq<char>, v: Seq<u8>, now: int)
    ensures
        get_spec(m.insert(k, string_entry(v)), k, now) == (
            m.insert(k, string_entry(v)),
            Ok::<Option<Seq<u8>>, StoreError>(Some(v)),
        ),
{
}

/// A key that was just set has no expiration.
pub proof fn law_ttl_after_set(m: Map<Seq<char>, EntryView>, k: Seq<char>, v: Seq<u8>, now: int)
    ensures
        ttl_spec(m.insert(k, string_entry(v)), k, now).1 == Ttl::NoExpiration,
{
}

/// An entry that has expired is gone for every reader: `get` answers nothing,
/// `ttl` answers `Missing`, `exists` does not count it, and each of them
/// deletes it.
pub proof fn law_expired_is_gone(m: Map<Seq<char>, EntryView>, k: Seq<char>, now: int)
    requires
        m.contains_key(k),
        is_expired(m[k], now),
    ensures
        get_spec(m, k, now) == (m.remove(k), Ok::<Option<Seq<u8>>, StoreError>(None)),
        ttl_spec(m, k, now) == (m.remove(k), Ttl::Missing),
        exists_spec(m, seq![k], now) == (m.remove(k), 0nat),
{
    assert(seq![k].drop_last() =~= Seq::<Seq<char>>::empty());
    assert(exists_spec(m, seq![k].drop_last(), now) == (m, 0nat));
    assert(seq![k].last() == k);
}

/// `ttl` answers `Missing` exactly for a key without a live entry.
pub proof fn law_ttl_missing(m: Map<Seq<char>, EntryView>, k: Seq<char>, now: int)
    ensures
        (ttl_spec(m, k, now).1 == Ttl::Missing) == !live(m, k, now),
{
}

/// `EXPIRE key 0` deletes the key: it answers whether the key was live, and
/// afterwards the key is missing.
pub proof fn law_expire_zero_deletes(m: Map<Seq<char>, EntryView>, k: Seq<char>, now: int)
    ensures
        ({
            let (m1, removed) = expire_at_spec(m, k, deadline_after(now, 0), now);
            &&& removed == live(m, k, now)
            &&& !m1.contains_key(k)
            &&& m1 == m.remove(k)
        }),
{
    assert(purge(m, k, now).remove(k) =~= m.remove(k));
}

/// `EXPIREAT` with a time that has passed deletes the key.
pub proof fn law_expire_at_past_deletes(
    m: Map<Seq<char>, EntryView>,
    k: Seq<char>,
    unix_seconds: int,
    now: int,
)
    requires
        0 <= unix_seconds <= i64::MAX,
        unix_seconds * NANOS_PER_SECOND <= now,
    ensures
        ({
            let (m1, removed) = expire_at_spec(m, k, unix_deadline(unix_seconds, now), now);
            &&& removed == live(m, k, now)
            &&& m1 == m.remove(k)
        }),
{
    assert(purge(m, k, now).remove(k) =~= m.remove(k));
}

/// An expiration in the future is kept: `ttl` then counts the whole seconds
/// left, and the key stays live until that time.
pub proof fn law_expire_then_ttl(
    m: Map<Seq<char>, EntryView>,
    k: Seq<char>,
    t: int,
    now: int,
    later: int,
)
    requires
        live(m, k, now),
        now < t,
        now <= later < t,
    ensures
        ({
            let (m1, set) = expire_at_spec(m, k, t, now);
            &&& set
            &&& live(m1, k, later)
            &&& ttl_spec(m1, k, later).1 == Ttl::Seconds(((t - later) / NANOS_PER_SECOND as int) as u64)
            &&& m1[k].value == m[k].value
        }),
{
}

/// `PERSIST` removes an expiration for good: afterwards `ttl` answers
/// `NoExpiration` at every later time.
pub proof fn law_persist_removes_expiration(
    m: Map<Seq<char>, EntryView>,
    k: Seq<char>,
    now: int,
    later: int,
)
    requires
        live(m, k, now),
        m[k].expires_at is Some,
    ensures
        ({
            let (m1, removed) = persist_spec(m, k, now);
            &&& removed
            &&& ttl_spec(m1, k, later).1 == Ttl::NoExpiration
            &&& m1[k].value == m[k].value
        }),
{
}

/// After `DEL`, none of the keys is there, every other entry is untouched,
/// and the count is at most the number of keys given.
pub proof fn law_del_removes(m: Map<Seq<char>, EntryView>, keys: Seq<Seq<char>>, now: int)
    ensures
        ({
            let (m1, n) = del_spec(m, keys, now);
            &&& forall|i: int| 0 <= i < keys.len() ==> !m1.contains_key(#[trigger] keys[i])
            &&& forall|k: Seq<char>| !keys.contains(k) ==> m1.contains_key(k) == m.contains_key(k) && (m1.contains_key(k) ==> m1[k] == m[k])
            &&& n <= keys.len()
        }),
    decreases keys.len(),
{
    if keys.len() > 0 {
        law_del_removes(m, keys.drop_last(), now);
        let (m0, n0) = del_spec(m, keys.drop_last(), now);
        assert forall|i: int| 0 <= i < keys.len() implies !del_spec(m, keys, now).0.contains_key(
            #[trigger] keys[i],
        ) by {
            if i < keys.len() - 1 {
                assert(keys.drop_last()[i] == keys[i]);
            }
        }
        assert forall|k: Seq<char>| !keys.contains(k) implies !keys.drop_last().contains(k) by {
            if keys.drop_last().contains(k) {
                let j = choose|j: int| 0 <= j < keys.drop_last().len() && keys.drop_last()[j] == k;
                assert(keys[j] == k);
            }
        }
        assert forall|k: Seq<char>| !keys.contains(k) implies k != keys.last() by {
            if k == keys.last() {
                assert(keys[keys.len() - 1] == k);
            }
        }
    }
}

/// `EXISTS` counts a key once for each time it is named and it is live, and
/// changes nothing but the deletion of expired entries of the keys named.
pub proof fn law_exists_keeps_live_entries(m: Map<Seq<char>, EntryView>, keys: Seq<Seq<char>>, now: int)
    ensures
        ({
            let (m1, n) = exists_spec(m, keys, now);
            &&& forall|k: Seq<char>| live(m, k, now) ==> m1.contains_key(k) && m1[k] == m[k]
            &&& forall|k: Seq<char>| #[trigger] m1.contains_key(k) ==> m.contains_key(k) && m1[k] == m[k]
            &&& n <= keys.len()
        }),
    decreases keys.len(),
{
    if keys.len() > 0 {
        law_exists_keeps_live_entries(m, keys.drop_last(), now);
    }
}

/// A string read as a list, or a list read as a string, is refused, and the
/// entry stays as it was.
pub proof fn law_wrong_type(m: Map<Seq<char>, EntryView>, k: Seq<char>, values: Seq<Seq<u8>>, now: int)
    requires
        live(m, k, now),
    ensures
        m[k].value is String ==> push_spec(m, k, values, true, now) == (
            m,
            Err::<usize, StoreError>(StoreError::WrongType),
        ) && push_spec(m, k, values, false, now) == (
            m,
            Err::<usize, StoreError>(StoreError::WrongType),
        ) && pop_spec(m, k, true, now).1 == Err::<Option<Seq<u8>>, StoreError>(StoreError::WrongType),
        m[k].value is List ==> get_spec(m, k, now) == (
            m,
            Err::<Option<Seq<u8>>, StoreError>(StoreError::WrongType),
        ),
{
}

/// The list that pushing leaves: the values in reverse order before the old
/// items for a push at the front, after them for a push at the back; a key
/// without a live entry starts as an empty list. The whole range `0..-1`
/// reads it back.
pub proof fn law_push_then_range(
    m: Map<Seq<char>, EntryView>,
    k: Seq<char>,
    values: Seq<Seq<u8>>,
    front: bool,
    now: int,
)
    requires
        !(live(m, k, now) && m[k].value is String),
        values.len() > 0 || live(m, k, now),
    ensures
        ({
            let old_items = if live(m, k, now) {
                m[k].value->List_0
            } else {
                Seq::empty()
            };
            let items = if front {
                values.reverse() + old_items
            } else {
                old_items + values
            };
            let (m1, r) = push_spec(m, k, values, front, now);
            &&& r == Ok::<usize, StoreError>(items.len() as usize)
            &&& m1[k].value == ValueView::List(items)
            &&& items.len() > 0 ==> lrange_spec(m1, k, 0, -1, now).1 == Ok::<
                Seq<Seq<u8>>,
                StoreError,
            >(items)
        }),
{
    let old_items = if live(m, k, now) {
        m[k].value->List_0
    } else {
        Seq::empty()
    };
    let items = if front {
        values.reverse() + old_items
    } else {
        old_items + values
    };
    if items.len() > 0 {
        assert(items.subrange(0, items.len() - 1 + 1) =~= items);
    }
}

/// A value pushed at one end is the first that a pop at that end gives back.
pub proof fn law_push_then_pop(m: Map<Seq<char>, EntryView>, k: Seq<char>, v: Seq<u8>, front: bool, now: int)
    requires
        !(live(m, k, now) && m[k].value is String),
    ensures
        ({
            let (m1, r) = push_spec(m, k, seq![v], front, now);
            pop_spec(m1, k, front, now).1 == Ok::<Option<Seq<u8>>, StoreError>(Some(v))
        }),
{
    assert(seq![v].reverse() =~= seq![v]);
}

/// A pop that takes the last item of a list deletes the key.
pub proof fn law_pop_last_deletes(m: Map<Seq<char>, EntryView>, k: Seq<char>, front: bool, now: int)
    requires
        live(m, k, now),
        m[k].value is List,
        m[k].value->List_0.len() == 1,
    ensures
        ({
            let (m1, r) = pop_spec(m, k, front, now);
            &&& !m1.contains_key(k)
            &&& r == Ok::<Option<Seq<u8>>, StoreError>(Some(m[k].value->List_0[0]))
        }),
{
}

/// A normalized range lies within the list and is not empty; `0..-1` is the
/// whole list.
pub proof fn law_normalized_range_in_bounds(len: int, start: int, stop: int)
    requires
        len >= 0,
    ensures
        normalize_range_spec(len, start, stop) matches Some((a, b)) ==> 0 <= a <= b < len,
        len > 0 ==> normalize_range_spec(len, 0, -1) == Some((0int, len - 1)),
{
}

/// After a cleanup at `now`, no entry that has expired remains, and every
/// other entry is untouched.
pub proof fn law_cleanup_leaves_live_entries(m: Map<Seq<char>, EntryView>, now: int)
    ensures
        ({
            let m1 = m.remove_keys(expired_keys(m, now));
            &&& forall|k: Seq<char>| #[trigger] m1.contains_key(k) ==> !is_expired(m1[k], now)
            &&& forall|k: Seq<char>| live(m, k, now) ==> m1.contains_key(k) && m1[k] == m[k]
        }),
{
}


/// `PERSIST` answers true exactly when the key holds a live entry with an
/// expiration. Then the entry keeps its value and loses its expiration;
/// otherwise every live entry stays as it was and no entry is added.
pub proof fn law_persist_answers_whether_it_removed(m: Map<Seq<char>, EntryView>, k: Seq<char>, now: int)
    ensures
        ({
            let (m1, removed) = persist_spec(m, k, now);
            &&& removed == (live(m, k, now) && m[k].expires_at is Some)
            &&& removed ==> m1 == m.insert(k, EntryView { value: m[k].value, expires_at: None })
            &&& !removed ==> forall|j: Seq<char>| live(m, j, now) ==> m1.contains_key(j) && m1[j] == m[j]
            &&& !removed ==> forall|j: Seq<char>| #[trigger] m1.contains_key(j) ==> m.contains_key(j) && m1[j] == m[j]
        }),
{
    let (m1, removed) = persist_spec(m, k, now);
    if removed {
        assert(m1 =~= m.insert(k, EntryView { value: m[k].value, expires_at: None }));
    }
}

/// `DEL` answers how many different keys among those given held a live
/// entry (a key named twice is deleted once), and leaves the store without
/// any of the keys given and otherwise as it was.
pub proof fn law_del_counts_live_keys(m: Map<Seq<char>, EntryView>, keys: Seq<Seq<char>>, now: int)
    ensures
        del_spec(m, keys, now).1 == keys.to_set().filter(|k: Seq<char>| live(m, k, now)).len(),
        del_spec(m, keys, now).0 == m.remove_keys(keys.to_set()),
    decreases keys.len(),
{
    let lv = |k: Seq<char>| live(m, k, now);
    if keys.len() == 0 {
        assert(keys.to_set() =~= Set::<Seq<char>>::empty());
        assert(keys.to_set().filter(lv) =~= Set::<Seq<char>>::empty());
        assert(m.remove_keys(keys.to_set()) =~= m);
    } else {
        let p = keys.drop_last();
        let k = keys.last();
        law_del_counts_live_keys(m, p, now);
        let s0 = p.to_set();
        assert(keys.to_set() =~= s0.insert(k)) by {
            assert forall|x: Seq<char>| keys.to_set().contains(x) implies s0.insert(k).contains(x) by {
                let j = choose|j: int| 0 <= j < keys.len() && keys[j] == x;
                if j < keys.len() - 1 {
                    assert(p[j] == x);
                }
            }
            assert forall|x: Seq<char>| s0.insert(k).contains(x) implies keys.to_set().contains(x) by {
                if x == k {
                    assert(keys[keys.len() - 1] == x);
                } else {
                    let j = choose|j: int| 0 <= j < p.len() && p[j] == x;
                    assert(keys[j] == x);
                }
            }
        }
        vstd::seq_lib::seq_to_set_is_finite(p);
        s0.lemma_len_filter(lv);
        let f0 = s0.filter(lv);
        let m0 = m.remove_keys(s0);
        assert(live(m0, k, now) == (live(m, k, now) && !s0.contains(k)));
        assert(m0.remove(k) =~= m.remove_keys(s0.insert(k)));
        if live(m, k, now) && !s0.contains(k) {
            assert(s0.insert(k).filter(lv) =~= f0.insert(k));
            assert(!f0.contains(k));
        } else {
            assert(s0.insert(k).filter(lv) =~= f0);
        }
    }
}

/// `LRANGE` reads the items from `start` to `stop`, both included, counting
/// a negative index from the end of the list (`-1` is the last item); a start
/// before the beginning reads from the beginning, a stop beyond the end reads
/// to the end, and a start beyond the end, a stop before the beginning or a
/// start after the stop reads nothing.
/// Reading a range changes nothing but the deletion of an expired entry.
pub proof fn law_lrange_reads_inclusive_range(
    m: Map<Seq<char>, EntryView>,
    k: Seq<char>,
    start: int,
    stop: int,
    now: int,
)
    requires
        live(m, k, now),
        m[k].value is List,
    ensures
        ({
            let l = m[k].value->List_0;
            let n = l.len() as int;
            &&& lrange_spec(m, k, start, stop, now).0 == m
            &&& 0 <= start <= stop < n ==> lrange_spec(m, k, start, stop, now).1 == Ok::<
                Seq<Seq<u8>>,
                StoreError,
            >(l.subrange(start, stop + 1))
            &&& -n <= start <= stop < 0 ==> lrange_spec(m, k, start, stop, now).1 == Ok::<
                Seq<Seq<u8>>,
                StoreError,
            >(l.subrange(n + start, n + stop + 1))
            &&& n > 0 && stop >= n ==> lrange_spec(m, k, start, stop, now) == lrange_spec(
                m,
                k,
                start,
                n - 1,
                now,
            )
            &&& start >= n ==> lrange_spec(m, k, start, stop, now).1 == Ok::<
                Seq<Seq<u8>>,
                StoreError,
            >(Seq::empty())
            &&& stop < -n ==> lrange_spec(m, k, start, stop, now).1 == Ok::<
                Seq<Seq<u8>>,
                StoreError,
            >(Seq::empty())
            &&& 0 <= stop < start ==> lrange_spec(m, k, start, stop, now).1 == Ok::<
                Seq<Seq<u8>>,
                StoreError,
            >(Seq::empty())
            &&& start <= -n ==> lrange_spec(m, k, start, stop, now) == lrange_spec(m, k, 0, stop, now)
            &&& -n <= start < 0 ==> lrange_spec(m, k, start, stop, now) == lrange_spec(
                m,
                k,
                n + start,
                stop,
                now,
            )
            &&& -n <= stop < 0 ==> lrange_spec(m, k, start, stop, now) == lrange_spec(
                m,
                k,
                start,
                n + stop,
                now,
            )
        }),
{
}


/// `EXISTS` answers how many of the keys given hold a live entry, a key
/// counted each time it is named.
pub proof fn law_exists_counts_live_keys(m: Map<Seq<char>, EntryView>, keys: Seq<Seq<char>>, now: int)
    ensures
        exists_spec(m, keys, now).1 == keys.filter(|k: Seq<char>| live(m, k, now)).len(),
    decreases keys.len(),
{
    reveal(Seq::filter);
    if keys.len() > 0 {
        let p = keys.drop_last();
        law_exists_counts_live_keys(m, p, now);
        law_exists_keeps_live_entries(m, p, now);
        let m1 = exists_spec(m, p, now).0;
        let k = keys.last();
        assert(live(m1, k, now) == live(m, k, now)) by {
            if m1.contains_key(k) {
                assert(m.contains_key(k) && m1[k] == m[k]);
            }
        }
    }
}


/// Popping from a live list gives its first item (at the front) or its last
/// (at the back) and leaves the other items in order, with the expiration
/// kept; the key goes when no item is left. Popping a key without a live
/// entry gives nothing. No other key is touched.
pub proof fn law_pop_takes_an_end(m: Map<Seq<char>, EntryView>, k: Seq<char>, front: bool, now: int)
    ensures
        ({
            let (m1, r) = pop_spec(m, k, front, now);
            &&& !live(m, k, now) ==> r == Ok::<Option<Seq<u8>>, StoreError>(None) && !m1.contains_key(k)
            &&& live(m, k, now) && m[k].value is List && m[k].value->List_0.len() > 0 ==> {
                let l = m[k].value->List_0;
                let n = l.len() as int;
                &&& r == Ok::<Option<Seq<u8>>, StoreError>(Some(if front { l[0] } else { l[n - 1] }))
                &&& n == 1 ==> !m1.contains_key(k)
                &&& n > 1 ==> m1.contains_key(k) && m1[k].expires_at == m[k].expires_at
                    && m1[k].value == ValueView::List(
                    if front {
                        l.subrange(1, n)
                    } else {
                        l.subrange(0, n - 1)
                    },
                )
            }
            &&& forall|j: Seq<char>| j != k ==> m1.contains_key(j) == m.contains_key(j) && (
            m1.contains_key(j) ==> m1[j] == m[j])
        }),
{
    let (m1, r) = pop_spec(m, k, front, now);
    if live(m, k, now) && m[k].value is List && m[k].value->List_0.len() > 1 {
        let l = m[k].value->List_0;
        assert(l.drop_first() =~= l.subrange(1, l.len() as int));
        assert(l.drop_last() =~= l.subrange(0, l.len() - 1));
    }
}


/// `get` answers the string that a key holds while its entry is live, and
/// nothing for a key without a live entry; it changes no live entry.
pub proof fn law_get_reads_live_strings(m: Map<Seq<char>, EntryView>, k: Seq<char>, now: int)
    ensures
        ({
            let (m1, r) = get_spec(m, k, now);
            &&& live(m, k, now) && m[k].value is String ==> r == Ok::<Option<Seq<u8>>, StoreError>(
                Some(m[k].value->String_0),
            )
            &&& !live(m, k, now) ==> r == Ok::<Option<Seq<u8>>, StoreError>(None)
            &&& forall|j: Seq<char>| live(m, j, now) ==> m1.contains_key(j) && m1[j] == m[j]
        }),
{
}

} // verus!
