use vstd::prelude::*;
use indexmap::IndexMap;
use crate::record::{Info, InfoView};

verus! {

/// `indexmap::IndexMap`, taken as an opaque value.
#[verifier::external_type_specification]
#[verifier::external_body]
#[verifier::reject_recursive_types(K)]
#[verifier::reject_recursive_types(V)]
#[verifier::reject_recursive_types(S)]
pub struct ExIndexMap<K, V, S>(IndexMap<K, V, S>);

/// One line of the list: a name and its item.
pub type Row = (Seq<char>, InfoView);

/// The names and items that a list holds, in the order in which it walks them.
pub uninterp spec fn entries(m: IndexMap<String, Info>) -> Seq<Row>;

/// Some line of `s` carries `name`.
pub open spec fn has_name(s: Seq<Row>, name: Seq<char>) -> bool {
    exists|i: int| 0 <= i < s.len() && (#[trigger] s[i]).0 == name
}

/// Line `i` of `s` carries `name`, and no other line does.
pub open spec fn is_only_index(s: Seq<Row>, name: Seq<char>, i: int) -> bool {
    &&& 0 <= i < s.len()
    &&& s[i].0 == name
    &&& forall|j: int| 0 <= j < s.len() && j != i ==> (#[trigger] s[j]).0 != name
}

/// `IndexMap::len`: the number of lines.
#[verifier::external_body]
pub(crate) fn map_len(m: &IndexMap<String, Info>) -> (n: usize)
    ensures
        n == entries(*m).len(),
{
    m.len()
}

/// `IndexMap::get`: the item kept under `key`, if there is one. A list holds
/// each name once, so the line found is the only one of that name.
#[verifier::external_body]
pub(crate) fn map_get<'a>(m: &'a IndexMap<String, Info>, key: &String) -> (r: Option<&'a Info>)
    ensures
        match r {
            Some(v) => exists|i: int| is_only_index(entries(*m), key@, i) && entries(*m)[i].1 == v@,
            None => !has_name(entries(*m), key@),
        },
{
    m.get(key)
}

/// `IndexMap::get_index`: line `index`, if the list is that long.
#[verifier::external_body]
pub(crate) fn map_get_index<'a>(m: &'a IndexMap<String, Info>, index: usize) -> (r: Option<
    (&'a String, &'a Info),
>)
    ensures
        match r {
            Some((k, v)) => index < entries(*m).len() && entries(*m)[index as int] == (k@, v@),
            None => index >= entries(*m).len(),
        },
{
    m.get_index(index)
}

/// `IndexMap::insert`: under a name that the list holds, the item is replaced
/// where it stands and the earlier one is handed back; under a new name, the
/// line is added at the end.
#[verifier::external_body]
pub(crate) fn map_insert(m: &mut IndexMap<String, Info>, key: String, value: Info) -> (prev: Option<
    Info,
>)
    ensures
        match prev {
            Some(p) => exists|i: int|
                is_only_index(entries(*old(m)), key@, i) && entries(*old(m))[i].1 == p@
                    && entries(*final(m)) == entries(*old(m)).update(i, (key@, value@)),
            None => !has_name(entries(*old(m)), key@) && entries(*final(m)) == entries(
                *old(m),
            ).push((key@, value@)),
        },
{
    m.insert(key, value)
}

/// `IndexMap::shift_remove`: the line of that name leaves, the lines after it
/// move up by one, and its item is handed back; a list without the name stays
/// as it is.
#[verifier::external_body]
pub(crate) fn map_shift_remove(m: &mut IndexMap<String, Info>, key: &String) -> (gone: Option<Info>)
    ensures
        match gone {
            Some(v) => exists|i: int|
                is_only_index(entries(*old(m)), key@, i) && entries(*old(m))[i].1 == v@
                    && entries(*final(m)) == entries(*old(m)).remove(i),
            None => !has_name(entries(*old(m)), key@) && entries(*final(m)) == entries(*old(m)),
        },
{
    m.shift_remove(key)
}

/// `IndexMap::clone`: a list with the same lines in the same order.
#[verifier::external_body]
pub(crate) fn map_clone(m: &IndexMap<String, Info>) -> (c: IndexMap<String, Info>)
    ensures
        entries(c) == entries(*m),
{
    m.clone()
}

} // verus!
