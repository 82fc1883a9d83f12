use vstd::prelude::*;
use crate::ops::{index_of, is_listing_of, noted, refreshed_all, removed, shown, touched};
use crate::ranking::distinct_names;
use crate::record::{
    consistent, decay_once, decayed, elapsed_days, fresh, raised, refreshed, InfoView,
};
use crate::store::{has_name, Row};

verus! {

/// `b` multiplied by itself `e` times.
pub open spec fn power(b: nat, e: nat) -> nat
    decreases e,
{
    if e == 0 {
        1
    } else {
        b * power(b, (e - 1) as nat)
    }
}

/// In a list of distinct names, the line that carries a name is the one that
/// `index_of` picks.
pub proof fn lemma_index_of_distinct(s: Seq<Row>, name: Seq<char>, i: int)
    requires
        distinct_names(s),
        0 <= i < s.len(),
        s[i].0 == name,
    ensures
        has_name(s, name),
        index_of(s, name) == i,
{
    let j = index_of(s, name);
    if j < i {
        assert(s[j].0 != s[i].0);
    } else if i < j {
        assert(s[i].0 != s[j].0);
    }
}

/// After `d` whole days the priority is `p` times 0.925 to the power `d`, less
/// what rounding down took, which is under 14 millionths however many days
/// have passed.
pub proof fn law_decay_follows_power(p: nat, d: nat)
    ensures
        decayed(p, d) * power(1000, d) <= p * power(925, d),
        p * power(925, d) <= (decayed(p, d) + 14) * power(1000, d),
    decreases d,
{
    if d == 0 {
        assert(power(1000, 0) == 1 && power(925, 0) == 1);
    } else {
        let e = (d - 1) as nat;
        law_decay_follows_power(p, e);
        let x = decayed(p, e);
        let y = decay_once(x);
        let a = power(1000, e);
        let b = power(925, e);
        assert(decayed(p, d) == y);
        assert(power(1000, d) == 1000 * a);
        assert(power(925, d) == 925 * b);
        assert(y * 1000 <= x * 925 && x * 925 <= y * 1000 + 999) by {
            assert(x * 925 == 1000 * ((x * 925) / 1000) + (x * 925) % 1000) by (nonlinear_arith);
        }
        assert(y * (1000 * a) <= p * (925 * b)) by (nonlinear_arith)
            requires
                y * 1000 <= x * 925,
                x * a <= p * b,
        ;
        assert(p * (925 * b) <= (y + 14) * (1000 * a)) by (nonlinear_arith)
            requires
                x * 925 <= y * 1000 + 999,
                p * b <= (x + 14) * a,
        ;
    }
}

/// After a refresh an item is active exactly if its priority reaches the
/// threshold; its note and the time of its last touch stay.
pub proof fn law_refresh_sets_active(info: InfoView, now: nat)
    ensures
        refreshed(info, now).prio == decayed(info.prio, elapsed_days(now, info.last)),
        refreshed(info, now).active == (refreshed(info, now).prio >= 100_000),
        refreshed(info, now).last == info.last,
        refreshed(info, now).note == info.note,
{
}

/// A refresh, a touch and a new item each leave `active` in agreement with
/// the priority.
pub proof fn law_active_agrees(info: InfoView, now: nat)
    ensures
        consistent(refreshed(info, now)),
        consistent(raised(info, now)),
        consistent(fresh(now)),
{
}

/// Each change of the list keeps its names distinct.
pub proof fn law_names_stay_distinct(s: Seq<Row>, name: Seq<char>, text: Seq<char>, now: nat)
    requires
        distinct_names(s),
    ensures
        distinct_names(touched(s, name, now)),
        distinct_names(refreshed_all(s, now)),
        has_name(s, name) ==> distinct_names(noted(s, name, text)),
        has_name(s, name) ==> distinct_names(removed(s, name)),
{
    let t = touched(s, name, now);
    let f = refreshed_all(s, now);
    assert forall|i: int, j: int| 0 <= i < j < t.len() implies (#[trigger] t[i]).0 != (
        #[trigger] t[j]).0 by {
        if has_name(s, name) {
            assert(t[i].0 == s[i].0 && t[j].0 == s[j].0);
        } else if j < s.len() {
            assert(t[i] == s[i] && t[j] == s[j]);
        } else {
            assert(t[i] == s[i]);
        }
    }
    assert forall|i: int, j: int| 0 <= i < j < f.len() implies (#[trigger] f[i]).0 != (
        #[trigger] f[j]).0 by {
        assert(f[i].0 == s[i].0 && f[j].0 == s[j].0);
    }
    if has_name(s, name) {
        let k = index_of(s, name);
        let n = noted(s, name, text);
        let r = removed(s, name);
        assert forall|i: int, j: int| 0 <= i < j < n.len() implies (#[trigger] n[i]).0 != (
            #[trigger] n[j]).0 by {
            assert(n[i].0 == s[i].0 && n[j].0 == s[j].0);
        }
        assert forall|i: int, j: int| 0 <= i < j < r.len() implies (#[trigger] r[i]).0 != (
            #[trigger] r[j]).0 by {
            let a = if i < k { i } else { i + 1 };
            let b = if j < k { j } else { j + 1 };
            assert(r[i] == s[a] && r[j] == s[b]);
        }
    }
}

/// Within the day of its last touch a refresh changes nothing of an item
/// whose `active` agrees with its priority.
pub proof fn law_refresh_same_day(info: InfoView, now: nat)
    requires
        info.last <= now < info.last + 86_400,
        info.active == (info.prio >= 100_000),
    ensures
        refreshed(info, now) == info,
{
    assert(elapsed_days(now, info.last) == 0);
    assert(decayed(info.prio, 0) == info.prio);
}

/// A list whose items were all touched within the last day, each with
/// `active` in agreement with its priority, is the same after a refresh.
pub proof fn law_reload_same_day(s: Seq<Row>, now: nat)
    requires
        forall|i: int|
            0 <= i < s.len() ==> (#[trigger] s[i]).1.last <= now < s[i].1.last + 86_400
                && s[i].1.active == (s[i].1.prio >= 100_000),
    ensures
        refreshed_all(s, now) == s,
{
    assert forall|i: int| 0 <= i < s.len() implies #[trigger] refreshed_all(s, now)[i] == s[i] by {
        law_refresh_same_day(s[i].1, now);
    }
    assert(refreshed_all(s, now) =~= s);
}

/// Touching a name that the list lacks adds, at the end, an active item of
/// priority one with an empty note.
pub proof fn law_touch_absent(s: Seq<Row>, name: Seq<char>, now: nat)
    requires
        !has_name(s, name),
    ensures
        touched(s, name, now) == s.push(
            (
                name,
                InfoView { prio: 1_000_000, last: now, active: true, note: Seq::<char>::empty() },
            ),
        ),
{
}

/// Touching a name that stands on line `i` adds one unit to its priority,
/// sets its last touch to `now` and leaves everything else as it was. The
/// priority must leave room for the unit.
pub proof fn law_touch_present(s: Seq<Row>, name: Seq<char>, now: nat, i: int)
    requires
        distinct_names(s),
        0 <= i < s.len(),
        s[i].0 == name,
        s[i].1.prio + 1_000_000 <= u64::MAX,
    ensures
        touched(s, name, now).len() == s.len(),
        touched(s, name, now)[i] == (
            name,
            InfoView {
                prio: s[i].1.prio + 1_000_000,
                last: now,
                active: true,
                note: s[i].1.note,
            },
        ),
        forall|j: int| 0 <= j < s.len() && j != i ==> #[trigger] touched(s, name, now)[j] == s[j],
{
    lemma_index_of_distinct(s, name, i);
}

/// A note replaces the whole earlier note of line `i` and changes nothing
/// else.
pub proof fn law_note_replaces(s: Seq<Row>, name: Seq<char>, text: Seq<char>, i: int)
    requires
        distinct_names(s),
        0 <= i < s.len(),
        s[i].0 == name,
    ensures
        noted(s, name, text).len() == s.len(),
        noted(s, name, text)[i] == (
            name,
            InfoView {
                prio: s[i].1.prio,
                last: s[i].1.last,
                active: s[i].1.active,
                note: text,
            },
        ),
        forall|j: int| 0 <= j < s.len() && j != i ==> #[trigger] noted(s, name, text)[j] == s[j],
{
    lemma_index_of_distinct(s, name, i);
}

/// Once a name is taken off the list, the list no longer holds it, and the
/// other lines keep their order.
pub proof fn law_removed_is_gone(s: Seq<Row>, name: Seq<char>, i: int)
    requires
        distinct_names(s),
        0 <= i < s.len(),
        s[i].0 == name,
    ensures
        !has_name(removed(s, name), name),
        removed(s, name) == s.subrange(0, i) + s.subrange(i + 1, s.len() as int),
{
    lemma_index_of_distinct(s, name, i);
    let r = removed(s, name);
    assert forall|j: int| 0 <= j < r.len() implies (#[trigger] r[j]).0 != name by {
        if j < i {
            assert(r[j] == s[j]);
            assert(s[j].0 != s[i].0);
        } else {
            assert(r[j] == s[j + 1]);
            assert(s[i].0 != s[j + 1].0);
        }
    }
    assert(r =~= s.subrange(0, i) + s.subrange(i + 1, s.len() as int));
}

/// A listing holds a line exactly if the list holds it and it is to be
/// shown: with `all` every line, else those above the threshold.
pub proof fn law_listing_shows_exactly(rows: Seq<Row>, s: Seq<Row>, all: bool, r: Row)
    requires
        is_listing_of(rows, s, all),
    ensures
        rows.contains(r) <==> s.contains(r) && shown(r, all),
{
    if rows.contains(r) {
        let i = choose|i: int| 0 <= i < rows.len() && rows[i] == r;
        assert(s.contains(rows[i]) && shown(rows[i], all));
    }
    if s.contains(r) && shown(r, all) {
        let k = choose|k: int| 0 <= k < s.len() && s[k] == r;
        assert(rows.contains(s[k]));
    }
}

} // verus!
