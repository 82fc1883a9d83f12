use vstd::prelude::*;
use indexmap::IndexMap;
use crate::clock::now_secs;
use crate::error::BucketListError;
use crate::ranking::{comes_before, descending, distinct_names, map_sort_by_priority};
use crate::record::{
    annotated, fresh, raise, raised, refresh, refreshed, Info, ACTIVE_THRESHOLD, UNIT,
};
use crate::store::{
    entries, has_name, is_only_index, map_clone, map_get, map_get_index, map_insert, map_len,
    map_shift_remove, Row,
};

verus! {

/// Whether a touch made a new item or raised one that was there.
#[derive(Debug, Clone, Copy, PartialEq, Eq, Structural)]
pub enum Touch {
    Added,
    Raised,
}

/// A line of `s` that carries `name`, where there is one.
pub open spec fn index_of(s: Seq<Row>, name: Seq<char>) -> int {
    choose|i: int| 0 <= i < s.len() && (#[trigger] s[i]).0 == name
}

/// The list after `name` was touched at `now`: its item raised where it
/// stands, or a new item at the end.
pub open spec fn touched(s: Seq<Row>, name: Seq<char>, now: nat) -> Seq<Row> {
    if has_name(s, name) {
        s.update(index_of(s, name), (name, raised(s[index_of(s, name)].1, now)))
    } else {
        s.push((name, fresh(now)))
    }
}

/// The list after the note of `name` was replaced by `note`.
pub open spec fn noted(s: Seq<Row>, name: Seq<char>, note: Seq<char>) -> Seq<Row> {
    s.update(index_of(s, name), (name, annotated(s[index_of(s, name)].1, note)))
}

/// The list without the line of `name`.
pub open spec fn removed(s: Seq<Row>, name: Seq<char>) -> Seq<Row> {
    s.remove(index_of(s, name))
}

/// The list with every item brought up to `now`.
pub open spec fn refreshed_all(s: Seq<Row>, now: nat) -> Seq<Row> {
    Seq::new(s.len(), |i: int| (s[i].0, refreshed(s[i].1, now)))
}

/// Whether a line is shown: every line with `all`, else those whose priority
/// lies above the threshold.
pub open spec fn shown(r: Row, all: bool) -> bool {
    all || r.1.prio > ACTIVE_THRESHOLD as nat
}

/// `rows` is what a listing of `s` shows: the lines that `shown` admits, each
/// once, from the highest priority down, lines of equal priority in the order
/// that they have in `s`; with `all`, as many lines as `s` has.
pub open spec fn is_listing_of(rows: Seq<Row>, s: Seq<Row>, all: bool) -> bool {
    &&& all ==> rows.len() == s.len()
    &&& forall|i: int| 0 <= i < rows.len() ==> s.contains(#[trigger] rows[i]) && shown(rows[i], all)
    &&& forall|k: int| 0 <= k < s.len() && shown(#[trigger] s[k], all) ==> rows.contains(s[k])
    &&& distinct_names(rows)
    &&& descending(rows)
    &&& forall|i: int, j: int|
        0 <= i < j < rows.len() && (#[trigger] rows[i]).1.prio == (#[trigger] rows[j]).1.prio
            ==> comes_before(s, rows[i], rows[j])
}

/// The lines of a listing as contracts see them.
pub open spec fn rows_of(v: Seq<(String, Info)>) -> Seq<Row> {
    Seq::new(v.len(), |i: int| (v[i].0@, v[i].1@))
}

/// The only line of a name is the one that `index_of` picks.
pub proof fn lemma_only_index(s: Seq<Row>, name: Seq<char>, i: int)
    requires
        is_only_index(s, name, i),
    ensures
        has_name(s, name),
        index_of(s, name) == i,
{
    assert(s[i].0 == name);
}

/// An item equal to `info`, field by field.
fn copy_of(info: &Info) -> (r: Info)
    ensures
        r@ == info@,
{
    Info { prio: info.prio, last: info.last, active: info.active, note: info.note.clone() }
}

/// Touches `name` at `now`: raises its item by one unit where the list holds
/// it, else adds a new item at the end.
pub fn add_or_incr_at(items: IndexMap<String, Info>, name: String, now: u64) -> (res: (
    IndexMap<String, Info>,
    Touch,
))
    ensures
        entries(res.0) == touched(entries(items), name@, now as nat),
        res.1 == (if has_name(entries(items), name@) {
            Touch::Raised
        } else {
            Touch::Added
        }),
{
    let mut items = items;
    let ghost before = entries(items);
    let ghost n = name@;
    let found: Option<Info> = match map_get(&items, &name) {
        Some(v) => Some(copy_of(v)),
        None => None,
    };
    match found {
        Some(info) => {
            let ghost i = choose|i: int| is_only_index(before, n, i) && before[i].1 == info@;
            let next = raise(info, now);
            let prev = map_insert(&mut items, name, next);
            proof {
                lemma_only_index(before, n, i);
                assert(prev is Some);
                let j = choose|j: int|
                    is_only_index(before, n, j) && entries(items) == before.update(
                        j,
                        (n, next@),
                    );
                assert(j == i);
            }
            (items, Touch::Raised)
        },
        None => {
            let first = Info { prio: UNIT, last: now, active: true, note: String::new() };
            let prev = map_insert(&mut items, name, first);
            proof {
                if prev is Some {
                    let j = choose|j: int| is_only_index(before, n, j);
                    lemma_only_index(before, n, j);
                }
                assert(first@ == fresh(now as nat));
            }
            (items, Touch::Added)
        },
    }
}

/// Touches `name` at the clock's reading.
///
/// Fails with `Time`, and the list is dropped, only where the clock stands
/// before the epoch; else the list is as `add_or_incr_at` leaves it at the
/// second that the clock gave.
pub fn add_or_incr(items: IndexMap<String, Info>, name: String) -> (res: Result<
    (IndexMap<String, Info>, Touch),
    BucketListError,
>)
    ensures
        match res {
            Ok((m, t)) => (exists|now: nat|
                now <= u64::MAX && entries(m) == #[trigger] touched(entries(items), name@, now))
                && t == (if has_name(entries(items), name@) {
                Touch::Raised
            } else {
                Touch::Added
            }),
            Err(e) => e == BucketListError::Time,
        },
{
    match now_secs() {
        Ok(now) => {
            let done = add_or_incr_at(items, name, now);
            assert(entries(done.0) == touched(entries(items), name@, now as nat));
            Ok(done)
        },
        Err(e) => Err(e),
    }
}

/// Replaces the note of `name` by `text`.
///
/// Fails with `NotFound(name)` exactly where the list holds no such name.
pub fn note(items: IndexMap<String, Info>, name: String, text: String) -> (res: Result<
    IndexMap<String, Info>,
    BucketListError,
>)
    ensures
        match res {
            Ok(m) => has_name(entries(items), name@) && entries(m) == noted(
                entries(items),
                name@,
                text@,
            ),
            Err(e) => !has_name(entries(items), name@) && e == BucketListError::NotFound(name),
        },
{
    let mut items = items;
    let ghost before = entries(items);
    let ghost n = name@;
    let found: Option<Info> = match map_get(&items, &name) {
        Some(v) => Some(copy_of(v)),
        None => None,
    };
    match found {
        None => Err(BucketListError::NotFound(name)),
        Some(info) => {
            let ghost i = choose|i: int| is_only_index(before, n, i) && before[i].1 == info@;
            let next = Info { prio: info.prio, last: info.last, active: info.active, note: text };
            let prev = map_insert(&mut items, name, next);
            proof {
                lemma_only_index(before, n, i);
                assert(prev is Some);
                let j = choose|j: int|
                    is_only_index(before, n, j) && entries(items) == before.update(
                        j,
                        (n, next@),
                    );
                assert(j == i);
                assert(next@ == annotated(before[i].1, text@));
            }
            Ok(items)
        },
    }
}

/// Takes `name` off the list and hands its item back; the other lines keep
/// their order.
///
/// Fails with `NotFound(name)` exactly where the list holds no such name.
pub fn del(items: IndexMap<String, Info>, name: String) -> (res: Result<
    (IndexMap<String, Info>, Info),
    BucketListError,
>)
    ensures
        match res {
            Ok((m, gone)) => {
                &&& has_name(entries(items), name@)
                &&& entries(m) == removed(entries(items), name@)
                &&& gone@ == entries(items)[index_of(entries(items), name@)].1
                &&& !has_name(entries(m), name@)
            },
            Err(e) => !has_name(entries(items), name@) && e == BucketListError::NotFound(name),
        },
{
    let mut items = items;
    let ghost before = entries(items);
    match map_shift_remove(&mut items, &name) {
        None => Err(BucketListError::NotFound(name)),
        Some(gone) => {
            proof {
                let i = choose|i: int|
                    is_only_index(before, name@, i) && before[i].1 == gone@ && entries(items)
                        == before.remove(i);
                lemma_only_index(before, name@, i);
                let after = entries(items);
                assert forall|j: int| 0 <= j < after.len() implies (#[trigger] after[j]).0
                    != name@ by {
                    if j < i {
                        assert(after[j] == before[j]);
                    } else {
                        assert(after[j] == before[j + 1]);
                    }
                }
            }
            Ok((items, gone))
        },
    }
}

/// Brings every item up to `now`: each priority decays by the whole days since
/// its last touch, and each item is active iff its priority then reaches the
/// threshold. Names, notes, touch times and the order stay.
pub fn recompute(items: IndexMap<String, Info>, now: u64) -> (res: IndexMap<String, Info>)
    ensures
        entries(res) == refreshed_all(entries(items), now as nat),
{
    let mut items = items;
    let ghost before = entries(items);
    let n: usize = map_len(&items);
    let mut i: usize = 0;
    while i < n
        invariant
            i <= n,
            n == before.len(),
            entries(items).len() == n,
            forall|k: int| 0 <= k < i ==> #[trigger] entries(items)[k] == (
                before[k].0,
                refreshed(before[k].1, now as nat),
            ),
            forall|k: int| i <= k < n ==> #[trigger] entries(items)[k] == before[k],
        decreases n - i,
    {
        let ghost cur = entries(items);
        let at: Option<(String, Info)> = match map_get_index(&items, i) {
            Some((k, v)) => Some((k.clone(), copy_of(v))),
            None => None,
        };
        match at {
            Some((key, info)) => {
                let ghost kv = key@;
                let next = refresh(info, now);
                let prev = map_insert(&mut items, key, next);
                proof {
                    assert(cur[i as int].0 == kv);
                    assert(has_name(cur, kv));
                    assert(prev is Some);
                    let j = choose|j: int|
                        is_only_index(cur, kv, j) && entries(items) == cur.update(j, (kv, next@));
                    assert(j == i);
                }
            },
            None => {},
        }
        i = i + 1;
    }
    proof {
        assert(entries(items) =~= refreshed_all(before, now as nat));
    }
    items
}

/// What a listing shows of the list: the lines from the highest priority
/// down, cut before the first one at or under the threshold unless `all` is
/// set. The list itself is not touched.
pub fn listing(items: &IndexMap<String, Info>, all: bool) -> (rows: Vec<(String, Info)>)
    ensures
        is_listing_of(rows_of(rows@), entries(*items), all),
{
    let mut sorted = map_clone(items);
    map_sort_by_priority(&mut sorted);
    let ghost s = entries(*items);
    let ghost t = entries(sorted);
    let n: usize = map_len(&sorted);
    let mut rows: Vec<(String, Info)> = Vec::new();
    let mut i: usize = 0;
    let mut cut: bool = false;
    while i < n && !cut
        invariant
            i <= n,
            n == t.len(),
            t == entries(sorted),
            rows@.len() == i,
            forall|k: int| 0 <= k < i ==> #[trigger] rows_of(rows@)[k] == t[k],
            forall|k: int| 0 <= k < i ==> shown(#[trigger] t[k], all),
            cut ==> i < n && !shown(t[i as int], all),
        decreases n - i + (if cut { 0int } else { 1int }),
    {
        let at: Option<(String, Info)> = match map_get_index(&sorted, i) {
            Some((k, v)) => Some((k.clone(), copy_of(v))),
            None => None,
        };
        match at {
            Some((key, info)) => {
                if !all && info.prio <= ACTIVE_THRESHOLD {
                    cut = true;
                } else {
                    let ghost prior = rows@;
                    rows.push((key, info));
                    proof {
                        assert forall|k: int| 0 <= k <= i implies #[trigger] rows_of(rows@)[k]
                            == t[k] by {
                            if k < i {
                                assert(rows@[k] == prior[k]);
                                assert(rows_of(prior)[k] == t[k]);
                            }
                        }
                    }
                    i = i + 1;
                }
            },
            None => {
                i = i + 1;
            },
        }
    }
    proof {
        let r = rows_of(rows@);
        assert forall|k: int| 0 <= k < s.len() && shown(#[trigger] s[k], all) implies r.contains(
            s[k],
        ) by {
            assert(t.contains(s[k]));
            let m = choose|m: int| 0 <= m < t.len() && t[m] == s[k];
            if m >= i {
                assert(t[i as int].1.prio >= t[m].1.prio || m == i);
            }
            assert(r[m] == s[k]);
        }
        assert forall|a: int| 0 <= a < r.len() implies s.contains(#[trigger] r[a]) && shown(
            r[a],
            all,
        ) by {
            assert(r[a] == t[a]);
        }
        assert forall|a: int, b: int|
            0 <= a < b < r.len() && (#[trigger] r[a]).1.prio == (#[trigger] r[b]).1.prio
            implies comes_before(s, r[a], r[b]) by {
            assert(r[a] == t[a] && r[b] == t[b]);
        }
        assert forall|a: int, b: int| 0 <= a < b < r.len() implies (#[trigger] r[a]).0 != (
            #[trigger] r[b]).0 by {
            assert(r[a] == t[a] && r[b] == t[b]);
        }
        assert forall|a: int, b: int| 0 <= a < b < r.len() implies (#[trigger] r[a]).1.prio >= (
            #[trigger] r[b]).1.prio by {
            assert(r[a] == t[a] && r[b] == t[b]);
        }
    }
    rows
}

/// Lists the items and hands the list back as it was.
pub fn ls(items: IndexMap<String, Info>, all: bool) -> (res: Result<
    (IndexMap<String, Info>, Vec<(String, Info)>),
    BucketListError,
>)
    ensures
        match res {
            Ok((m, rows)) => entries(m) == entries(items) && is_listing_of(
                rows_of(rows@),
                entries(items),
                all,
            ),
            Err(_) => false,
        },
{
    let rows = listing(&items, all);
    Ok((items, rows))
}

} // verus!
