use vstd::prelude::*;

verus! {

/// A `hashbrown::HashMap` from payload ids to stage indices. Verus does not look
/// inside: what it holds is `location_entries`.
#[verifier::external_body]
pub struct LocationMap {
    inner: hashbrown::HashMap<i64, usize>,
}

/// The stage indices that the map holds, by id.
pub uninterp spec fn location_entries(m: LocationMap) -> Map<i64, usize>;

/// `HashMap::new`: a map that holds nothing.
#[verifier::external_body]
pub(crate) fn location_map_new() -> (r: LocationMap)
    ensures
        location_entries(r) == (Map::<i64, usize>::empty()),
{
    LocationMap { inner: hashbrown::HashMap::new() }
}

/// `HashMap::get`: the stage index under the id, if the map has the id.
#[verifier::external_body]
pub(crate) fn location_map_get(m: &LocationMap, id: i64) -> (r: Option<usize>)
    ensures
        match r {
            Some(stage) => location_entries(*m).contains_key(id) && stage == location_entries(*m)[id],
            None => !location_entries(*m).contains_key(id),
        },
{
    m.inner.get(&id).copied()
}

/// `HashMap::insert`: the index stands under the id afterwards, the other
/// entries are untouched, and the index that stood there before comes back.
#[verifier::external_body]
pub(crate) fn location_map_insert(m: &mut LocationMap, id: i64, stage: usize) -> (r: Option<usize>)
    ensures
        location_entries(*final(m)) == location_entries(*old(m)).insert(id, stage),
        match r {
            Some(before) => location_entries(*old(m)).contains_key(id) && before == location_entries(
                *old(m),
            )[id],
            None => !location_entries(*old(m)).contains_key(id),
        },
{
    m.inner.insert(id, stage)
}

/// `HashMap::remove`: the id is gone afterwards, the other entries are
/// untouched, and the index that stood under it comes back.
#[verifier::external_body]
pub(crate) fn location_map_remove(m: &mut LocationMap, id: i64) -> (r: Option<usize>)
    ensures
        location_entries(*final(m)) == location_entries(*old(m)).remove(id),
        match r {
            Some(before) => location_entries(*old(m)).contains_key(id) && before == location_entries(
                *old(m),
            )[id],
            None => !location_entries(*old(m)).contains_key(id),
        },
{
    m.inner.remove(&id)
}

/// `HashMap::len`: the number of entries.
#[verifier::external_body]
pub(crate) fn location_map_len(m: &LocationMap) -> (r: usize)
    ensures
        r == location_entries(*m).len(),
{
    m.inner.len()
}

} // verus!
