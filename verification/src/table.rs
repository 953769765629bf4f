//! The hash table that backs a command map: command name to handler slot.
//!
//! The table is a `hashbrown::HashMap`. Its contents are spoken of through
//! [`table_entries`]; the three functions below are the only code that
//! touches the map, and their contracts are taken on trust.

use vstd::prelude::*;

verus! {

/// A `hashbrown::HashMap` from command name to the slot of its handler.
/// The map is kept opaque: the verifier sees the table only through
/// [`table_entries`].
#[verifier::external_body]
pub struct NameTable {
    inner: hashbrown::HashMap<String, usize>,
}

/// What a table holds: for each name in it, the slot stored under that name.
pub uninterp spec fn table_entries(t: NameTable) -> Map<Seq<char>, usize>;

/// `hashbrown::HashMap::new`: a map with no entries, so no name is in it.
#[verifier::external_body]
pub(crate) fn table_new() -> (out: NameTable)
    ensures
        table_entries(out).dom() == Set::<Seq<char>>::empty(),
{
    NameTable { inner: hashbrown::HashMap::new() }
}

/// `hashbrown::HashMap::insert`: afterwards `name` maps to `slot`, whether or
/// not it was present before, and every other entry is as it was.
#[verifier::external_body]
pub(crate) fn table_insert(t: &mut NameTable, name: &str, slot: usize)
    ensures
        table_entries(*final(t)) == table_entries(*old(t)).insert(name@, slot),
{
    t.inner.insert(name.to_owned(), slot);
}

/// `hashbrown::HashMap::iter`, collected: every entry of the map occurs in
/// the result, and the result holds nothing else. The order is whatever the
/// map's iterator gives; nothing is claimed of it.
#[verifier::external_body]
pub(crate) fn table_pairs(t: &NameTable) -> (out: Vec<(String, usize)>)
    ensures
        forall|i: int|
            0 <= i < out@.len() ==> table_entries(*t).contains_pair(
                (#[trigger] out@[i]).0@,
                out@[i].1,
            ),
        forall|k: Seq<char>|
            table_entries(*t).dom().contains(k) ==> exists|i: int|
                0 <= i < out@.len() && (#[trigger] out@[i]).0@ == k,
{
    t.inner.iter().map(|(k, v)| (k.clone(), *v)).collect()
}

} // verus!
