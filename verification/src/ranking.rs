use vstd::prelude::*;
use std::cmp::Ordering;
use indexmap::IndexMap;
use crate::record::Info;
use crate::store::{entries, Row};

verus! {

/// No two lines of `s` carry the same name.
pub open spec fn distinct_names(s: Seq<Row>) -> bool {
    forall|i: int, j: int| 0 <= i < j < s.len() ==> (#[trigger] s[i]).0 != (#[trigger] s[j]).0
}

/// Line `a` stands somewhere before line `b` in `s`.
pub open spec fn comes_before(s: Seq<Row>, a: Row, b: Row) -> bool {
    exists|x: int, y: int| 0 <= x < y < s.len() && #[trigger] s[x] == a && #[trigger] s[y] == b
}

/// From the highest priority down.
pub open spec fn descending(t: Seq<Row>) -> bool {
    forall|i: int, j: int|
        0 <= i < j < t.len() ==> (#[trigger] t[i]).1.prio >= (#[trigger] t[j]).1.prio
}

/// Lines of equal priority stand in `t` in the order that they have in `s`.
pub open spec fn ties_keep_order(t: Seq<Row>, s: Seq<Row>) -> bool {
    forall|i: int, j: int|
        0 <= i < j < t.len() && (#[trigger] t[i]).1.prio == (#[trigger] t[j]).1.prio
            ==> comes_before(s, t[i], t[j])
}

/// `t` holds the lines of `s`, each once, from the highest priority down, and
/// lines of equal priority in the order that they have in `s`.
pub open spec fn is_ranking_of(t: Seq<Row>, s: Seq<Row>) -> bool {
    &&& t.len() == s.len()
    &&& forall|i: int| 0 <= i < s.len() ==> t.contains(#[trigger] s[i])
    &&& forall|i: int| 0 <= i < t.len() ==> s.contains(#[trigger] t[i])
    &&& distinct_names(t)
    &&& descending(t)
    &&& ties_keep_order(t, s)
}

/// Orders two items so that the higher priority comes first.
pub fn by_priority_desc(a: &Info, b: &Info) -> (o: Ordering)
    ensures
        (o == Ordering::Less) == (a.prio > b.prio),
        (o == Ordering::Equal) == (a.prio == b.prio),
        (o == Ordering::Greater) == (a.prio < b.prio),
{
    if a.prio > b.prio {
        Ordering::Less
    } else if a.prio < b.prio {
        Ordering::Greater
    } else {
        Ordering::Equal
    }
}

/// `IndexMap::sort_by` with `by_priority_desc` on the items: the list is
/// reordered in place by a stable sort, so it keeps its lines, stands from the
/// highest priority down, and leaves lines of equal priority in their order.
#[verifier::external_body]
pub(crate) fn map_sort_by_priority(m: &mut IndexMap<String, Info>)
    ensures
        is_ranking_of(entries(*final(m)), entries(*old(m))),
{
    m.sort_by(|_, a, _, b| by_priority_desc(a, b));
}

} // verus!
