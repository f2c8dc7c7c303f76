use vstd::prelude::*;
use crate::pipeline::PipelinePayload;

verus! {

/// A `hashbrown::HashMap` from payload ids to the payloads of one stage. Verus does not look
/// inside: what it holds is `payload_entries`.
#[verifier::external_body]
pub struct PayloadMap {
    inner: hashbrown::HashMap<i64, PipelinePayload>,
}

/// The payloads that the map holds, by id.
pub uninterp spec fn payload_entries(m: PayloadMap) -> Map<i64, PipelinePayload>;

/// `HashMap::new`: a map that holds nothing.
#[verifier::external_body]
pub(crate) fn payload_map_new() -> (r: PayloadMap)
    ensures
        payload_entries(r) == (Map::<i64, PipelinePayload>::empty()),
{
    PayloadMap { inner: hashbrown::HashMap::new() }
}

/// `HashMap::get`: the payload under the id, if the map has the id.
#[verifier::external_body]
pub(crate) fn payload_map_get(m: &PayloadMap, id: i64) -> (r: Option<&PipelinePayload>)
    ensures
        match r {
            Some(payload) => payload_entries(*m).contains_key(id) && *payload == payload_entries(*m)[id],
            None => !payload_entries(*m).contains_key(id),
        },
{
    m.inner.get(&id)
}

/// `HashMap::insert`: the payload stands under the id afterwards, the other
/// entries are untouched, and the payload that stood there before comes back.
#[verifier::external_body]
pub(crate) fn payload_map_insert(m: &mut PayloadMap, id: i64, payload: PipelinePayload) -> (r: Option<
    PipelinePayload,
>)
    ensures
        payload_entries(*final(m)) == payload_entries(*old(m)).insert(id, payload),
        match r {
            Some(before) => payload_entries(*old(m)).contains_key(id) && before == payload_entries(
                *old(m),
            )[id],
            None => !payload_entries(*old(m)).contains_key(id),
        },
{
    m.inner.insert(id, payload)
}

/// `HashMap::remove`: the id is gone afterwards, the other entries are
/// untouched, and the payload that stood under it comes back.
#[verifier::external_body]
pub(crate) fn payload_map_remove(m: &mut PayloadMap, id: i64) -> (r: Option<PipelinePayload>)
    ensures
        payload_entries(*final(m)) == payload_entries(*old(m)).remove(id),
        match r {
            Some(before) => payload_entries(*old(m)).contains_key(id) && before == payload_entries(
                *old(m),
            )[id],
            None => !payload_entries(*old(m)).contains_key(id),
        },
{
    m.inner.remove(&id)
}

/// `HashMap::len`: the number of entries.
#[verifier::external_body]
pub(crate) fn payload_map_len(m: &PayloadMap) -> (r: usize)
    ensures
        r == payload_entries(*m).len(),
{
    m.inner.len()
}

} // verus!
