//! What holds of every consistent pipeline, and of its operations taken
//! together.

use vstd::prelude::*;
use crate::pipeline::ingress::admitted;
use crate::pipeline::model::{holds, is_member, PipelineView};
use crate::pipeline::move_as_is::moved_as_is;
use crate::pipeline::pack::{flatten_updates, packed, tagged};
use crate::pipeline::payload::PayloadView;
use crate::pipeline::stage::taken;
use crate::pipeline::unpack::{member_updates_of, unpacked, updates_have_members};
use crate::primitives::frame::VideoFrameView;
use crate::primitives::frame_update::VideoFrameUpdateView;

verus! {

/// The located ids of a consistent pipeline are the ids that its stages
/// hold, as ids of payloads or as ids of frames in batches; and each is
/// located in the one stage that holds it.
pub proof fn lemma_located_ids_are_held(v: PipelineView)
    requires
        v.wf(),
    ensures
        forall|id: i64|
            v.locations.contains_key(id) <==> exists|i: int|
                0 <= i < v.stages.len() && holds(#[trigger] v.stages[i], id),
        forall|id: i64, i: int|
            0 <= i < v.stages.len() && holds(#[trigger] v.stages[i], id) ==> #[trigger] v.locations[id]
                == i,
{
    assert forall|id: i64, i: int|
        0 <= i < v.stages.len() && holds(
            #[trigger] v.stages[i],
            id,
        ) implies v.locations.contains_key(id) && #[trigger] v.locations[id] == i by {
        if !v.stages[i].payloads.contains_key(id) {
            let b = choose|b: i64| is_member(v.stages[i], b, id);
            assert(is_member(v.stages[i], b, id));
        }
    }
    assert forall|id: i64| v.locations.contains_key(id) implies exists|i: int|
        0 <= i < v.stages.len() && holds(#[trigger] v.stages[i], id) by {
        let at = v.locations[id] as int;
        if !v.stages[at].payloads.contains_key(id) {
            assert(is_member(v.stages[at], v.owners[id], id));
        }
        assert(holds(v.stages[at], id));
    }
}

/// In a consistent pipeline whose batches are all empty, the located ids
/// are the ids of the payloads of the stages.
pub proof fn lemma_located_ids_are_payload_ids(v: PipelineView)
    requires
        v.wf(),
        forall|i: int, b: i64|
            0 <= i < v.stages.len() && (#[trigger] v.stages[i]).payloads.contains_key(b)
                ==> #[trigger] v.stages[i].payloads[b].members() == Set::<i64>::empty(),
    ensures
        forall|id: i64|
            v.locations.contains_key(id) <==> exists|i: int|
                0 <= i < v.stages.len() && (#[trigger] v.stages[i]).payloads.contains_key(id),
{
    assert forall|id: i64| v.locations.contains_key(id) implies exists|i: int|
        0 <= i < v.stages.len() && (#[trigger] v.stages[i]).payloads.contains_key(id) by {
        let at = v.locations[id] as int;
        if !v.stages[at].payloads.contains_key(id) {
            assert(is_member(v.stages[at], v.owners[id], id));
            assert(v.stages[at].payloads[v.owners[id]].members() == Set::<i64>::empty());
        }
        assert(v.stages[at].payloads.contains_key(id));
    }
}

/// In a consistent pipeline no frame is in two batches, and no frame that is
/// in a batch is a payload of its own.
pub proof fn lemma_batches_are_disjoint(v: PipelineView)
    requires
        v.wf(),
    ensures
        forall|i: int, j: int, b1: i64, b2: i64, id: i64|
            0 <= i < v.stages.len() && 0 <= j < v.stages.len() && #[trigger] is_member(
                v.stages[i],
                b1,
                id,
            ) && #[trigger] is_member(v.stages[j], b2, id) ==> i == j && b1 == b2,
        forall|i: int, j: int, b: i64, id: i64|
            0 <= i < v.stages.len() && 0 <= j < v.stages.len() && #[trigger] is_member(
                v.stages[i],
                b,
                id,
            ) ==> !#[trigger] v.stages[j].payloads.contains_key(id),
{
    assert forall|i: int, j: int, b: i64, id: i64|
        0 <= i < v.stages.len() && 0 <= j < v.stages.len() && #[trigger] is_member(
            v.stages[i],
            b,
            id,
        ) implies !#[trigger] v.stages[j].payloads.contains_key(id) by {
        if v.stages[j].payloads.contains_key(id) {
            assert(v.locations[id] == j);
            assert(v.locations[id] == i);
        }
    }
}

/// In a consistent pipeline every frame, independent or in a batch, has a
/// root span, and nothing else has one.
pub proof fn lemma_frames_have_root_spans(v: PipelineView)
    requires
        v.wf(),
    ensures
        forall|i: int, id: i64|
            0 <= i < v.stages.len() && (#[trigger] v.stages[i]).payloads.contains_key(id)
                ==> (#[trigger] v.root_spans.contains_key(id) <==> v.stages[i].payloads[id] is Frame),
        forall|i: int, b: i64, id: i64|
            0 <= i < v.stages.len() && #[trigger] is_member(v.stages[i], b, id)
                ==> v.root_spans.contains_key(id),
        forall|id: i64|
            v.root_spans.contains_key(id) ==> exists|i: int|
                0 <= i < v.stages.len() && holds(#[trigger] v.stages[i], id),
{
    assert forall|i: int, id: i64|
        0 <= i < v.stages.len() && (#[trigger] v.stages[i]).payloads.contains_key(
            id,
        ) implies (#[trigger] v.root_spans.contains_key(id) <==> v.stages[i].payloads[id] is Frame) by {
        assert(v.locations[id] == i);
        assert(v.root_spans.contains_key(id) <==> v.locations.contains_key(id) && !v.is_batch_id(
            id,
        ));
    }
    assert forall|i: int, b: i64, id: i64|
        0 <= i < v.stages.len() && #[trigger] is_member(
            v.stages[i],
            b,
            id,
        ) implies v.root_spans.contains_key(id) by {
        assert(v.locations[id] == i);
        assert(!v.stages[i].payloads.contains_key(id));
        assert(v.root_spans.contains_key(id) <==> v.locations.contains_key(id) && !v.is_batch_id(
            id,
        ));
    }
    lemma_located_ids_are_held(v);
    assert forall|id: i64| v.root_spans.contains_key(id) implies exists|i: int|
        0 <= i < v.stages.len() && holds(#[trigger] v.stages[i], id) by {
        assert(v.locations.contains_key(id));
    }
}

/// No operation changes which stages there are, their order, their names or
/// their kinds.
pub proof fn lemma_stages_are_fixed(
    pre: PipelineView,
    post: PipelineView,
    source: int,
    dest: int,
    id: i64,
    ids: Seq<i64>,
    frame: VideoFrameView,
    payload: PayloadView,
)
    requires
        0 <= source < pre.stages.len(),
        0 <= dest < pre.stages.len(),
        admitted(pre, post, dest, id, frame) || packed(pre, post, source, dest, ids, id)
            || moved_as_is(pre, post, source, dest, ids.to_set()) || unpacked(
            pre,
            post,
            source,
            dest,
            id,
        ) || (pre.payload_of(id) is Some && (post == pre.deleted(id) || post == pre.with_payload(
            id,
            payload,
        ))),
    ensures
        post.stages.len() == pre.stages.len(),
        forall|i: int|
            0 <= i < pre.stages.len() ==> (#[trigger] post.stages[i]).name == pre.stages[i].name
                && post.stages[i].kind == pre.stages[i].kind,
{
}

/// Whether the step from `pre` to `post` gave out the id: it is the id
/// counter of `pre` plus one, and the id counter of `post`.
pub open spec fn allocated(pre: PipelineView, post: PipelineView, id: i64) -> bool {
    id == pre.id_counter + 1 && post.id_counter == id
}

/// The admission of a frame gives out the id of the frame.
pub proof fn lemma_admission_allocates(
    pre: PipelineView,
    post: PipelineView,
    at: int,
    id: i64,
    frame: VideoFrameView,
)
    requires
        admitted(pre, post, at, id, frame),
    ensures
        allocated(pre, post, id),
{
}

/// The packing of frames gives out the id of the batch.
pub proof fn lemma_packing_allocates(
    pre: PipelineView,
    post: PipelineView,
    source: int,
    dest: int,
    ids: Seq<i64>,
    batch_id: i64,
)
    requires
        packed(pre, post, source, dest, ids, batch_id),
    ensures
        allocated(pre, post, batch_id),
{
}

/// No operation takes the id counter down: admitting a frame and packing
/// frames take it up by one, and moving payloads as they are, unpacking a
/// batch, deleting a payload and replacing a payload leave it as it is.
pub proof fn lemma_id_counter_never_goes_down(
    pre: PipelineView,
    post: PipelineView,
    source: int,
    dest: int,
    id: i64,
    ids: Seq<i64>,
    frame: VideoFrameView,
    payload: PayloadView,
)
    requires
        admitted(pre, post, dest, id, frame) || packed(pre, post, source, dest, ids, id)
            || moved_as_is(pre, post, source, dest, ids.to_set()) || unpacked(
            pre,
            post,
            source,
            dest,
            id,
        ) || post == pre.deleted(id) || post == pre.with_payload(id, payload),
    ensures
        pre.id_counter <= post.id_counter,
        post.id_counter != pre.id_counter ==> allocated(pre, post, id),
{
}

/// Ids are given out in strictly increasing order: an id that is given out
/// after another, with an id counter that did not go down in between, is
/// the greater one; and it is greater than every id that is located when it
/// is given out.
pub proof fn lemma_ids_strictly_increase(
    first_pre: PipelineView,
    first_post: PipelineView,
    first: i64,
    second_pre: PipelineView,
    second_post: PipelineView,
    second: i64,
)
    requires
        second_pre.wf(),
        allocated(first_pre, first_post, first),
        first_post.id_counter <= second_pre.id_counter,
        allocated(second_pre, second_post, second),
    ensures
        first < second,
        forall|id: i64| second_pre.locations.contains_key(id) ==> id < second,
{
}

/// Dropping the updates of a payload twice is the same as dropping them
/// once.
pub proof fn lemma_clear_updates_idempotent(v: PipelineView, id: i64)
    requires
        v.payload_of(id) is Some,
    ensures
        v.with_payload(id, v.payload_of(id)->Some_0.cleared()).payload_of(id) == Some(
            v.payload_of(id)->Some_0.cleared(),
        ),
        v.with_payload(id, v.payload_of(id)->Some_0.cleared()).with_payload(
            id,
            v.payload_of(id)->Some_0.cleared().cleared(),
        ) == v.with_payload(id, v.payload_of(id)->Some_0.cleared()),
{
    let once = v.with_payload(id, v.payload_of(id)->Some_0.cleared());
    let twice = once.with_payload(id, v.payload_of(id)->Some_0.cleared().cleared());
    let at = v.locations[id] as int;
    assert(twice.stages[at].payloads =~= once.stages[at].payloads);
    assert(twice.stages =~= once.stages);
}

/// Of the updates of one frame, each with the id of the frame, those for a
/// frame are all or none.
pub proof fn lemma_member_updates_of_tagged(
    id: i64,
    updates: Seq<VideoFrameUpdateView>,
    member: i64,
)
    ensures
        member_updates_of(tagged(id, updates), member) == (if id == member {
            updates
        } else {
            Seq::empty()
        }),
    decreases updates.len(),
{
    if updates.len() > 0 {
        lemma_member_updates_of_tagged(id, updates.drop_last(), member);
        assert(tagged(id, updates).drop_last() =~= tagged(id, updates.drop_last()));
        assert(tagged(id, updates).last() == (id, updates.last()));
        if id == member {
            assert(updates.drop_last().push(updates.last()) =~= updates);
        }
    } else {
        assert(tagged(id, updates) =~= Seq::empty());
        assert(updates =~= Seq::empty());
    }
}

/// The updates for a frame in two lists, one after the other, are those in
/// the first followed by those in the second.
pub proof fn lemma_member_updates_of_add(
    a: Seq<(i64, VideoFrameUpdateView)>,
    b: Seq<(i64, VideoFrameUpdateView)>,
    member: i64,
)
    ensures
        member_updates_of(a + b, member) == member_updates_of(a, member) + member_updates_of(
            b,
            member,
        ),
    decreases b.len(),
{
    if b.len() == 0 {
        assert(a + b =~= a);
        assert(member_updates_of(a, member) + member_updates_of(b, member) =~= member_updates_of(
            a,
            member,
        ));
    } else {
        lemma_member_updates_of_add(a, b.drop_last(), member);
        assert((a + b).drop_last() =~= a + b.drop_last());
        assert((a + b).last() == b.last());
        let x = member_updates_of(a, member);
        let y = member_updates_of(b.drop_last(), member);
        if b.last().0 == member {
            assert((x + y).push(b.last().1) =~= x + y.push(b.last().1));
        }
    }
}

/// The updates for a frame among the updates of a list of frame payloads,
/// flattened: those of the payload of the frame where the list has the
/// frame, else none.
pub proof fn lemma_member_updates_of_flattened(
    ids: Seq<i64>,
    payloads: Map<i64, PayloadView>,
    member: i64,
)
    requires
        forall|i: int| 0 <= i < ids.len() ==> payloads.contains_key(#[trigger] ids[i]),
    ensures
        member_updates_of(flatten_updates(taken(ids, payloads)), member) == (if ids.contains(
            member,
        ) {
            payloads[member].updates_of()
        } else {
            Seq::empty()
        }),
    decreases ids.len(),
{
    if ids.len() > 0 {
        let prev = ids.drop_last();
        let last = ids.last();
        assert forall|i: int| 0 <= i < prev.len() implies payloads.contains_key(
            #[trigger] prev[i],
        ) by {
            assert(prev[i] == ids[i]);
        }
        lemma_member_updates_of_flattened(prev, payloads, member);
        assert(ids.contains(member) <==> prev.contains(member) || last == member) by {
            if ids.contains(member) {
                let k = choose|k: int| 0 <= k < ids.len() && ids[k] == member;
                if k < prev.len() {
                    assert(prev[k] == member);
                }
            }
            if prev.contains(member) {
                let k = choose|k: int| 0 <= k < prev.len() && prev[k] == member;
                assert(ids[k] == member);
            }
            if last == member {
                assert(ids[ids.len() - 1] == member);
            }
        }
        assert(payloads.contains_key(last)) by {
            assert(ids[ids.len() - 1] == last);
        }
        if !prev.contains(last) {
            let before = taken(prev, payloads);
            assert(taken(ids, payloads) == before.push((last, payloads[last])));
            assert(taken(ids, payloads).drop_last() =~= before);
            lemma_member_updates_of_add(
                flatten_updates(before),
                tagged(last, payloads[last].updates_of()),
                member,
            );
            lemma_member_updates_of_tagged(last, payloads[last].updates_of(), member);
            let x = member_updates_of(flatten_updates(before), member);
            if last == member {
                assert(x + payloads[last].updates_of() =~= payloads[last].updates_of());
            } else {
                assert(x + Seq::<VideoFrameUpdateView>::empty() =~= x);
            }
        }
    } else {
        assert(!ids.contains(member));
    }
}

/// The updates for a frame that is not named in a list of updates are none.
pub proof fn lemma_member_updates_of_stranger(
    updates: Seq<(i64, VideoFrameUpdateView)>,
    member: i64,
)
    requires
        forall|i: int| 0 <= i < updates.len() ==> (#[trigger] updates[i]).0 != member,
    ensures
        member_updates_of(updates, member) == Seq::<VideoFrameUpdateView>::empty(),
    decreases updates.len(),
{
    if updates.len() > 0 {
        assert forall|i: int| 0 <= i < updates.drop_last().len() implies (
        #[trigger] updates.drop_last()[i]).0 != member by {
            assert(updates.drop_last()[i] == updates[i]);
        }
        lemma_member_updates_of_stranger(updates.drop_last(), member);
        assert(updates[updates.len() - 1].0 != member);
    }
}

/// Unpacking a batch and packing its frames again gives a batch of the same
/// frames under the same ids, with the same updates for each frame, in
/// their order.
pub proof fn lemma_pack_after_unpack(
    a: PipelineView,
    b: PipelineView,
    c: PipelineView,
    source: int,
    middle: int,
    dest: int,
    batch_id: i64,
    ids: Seq<i64>,
    new_batch_id: i64,
)
    requires
        0 <= source < a.stages.len(),
        0 <= middle < a.stages.len(),
        0 <= dest < a.stages.len(),
        a.stages[source].payloads.contains_key(batch_id),
        a.stages[source].payloads[batch_id] is Batch,
        updates_have_members(
            a.stages[source].payloads[batch_id]->member_updates,
            a.stages[source].payloads[batch_id]->frames,
        ),
        unpacked(a, b, source, middle, batch_id),
        ids.to_set() == a.stages[source].payloads[batch_id].members(),
        packed(b, c, middle, dest, ids, new_batch_id),
    ensures
        c.stages[dest].payloads[new_batch_id] is Batch,
        c.stages[dest].payloads[new_batch_id]->frames == a.stages[source].payloads[batch_id]->frames,
        forall|member: i64|
            member_updates_of(c.stages[dest].payloads[new_batch_id]->member_updates, member)
                == member_updates_of(a.stages[source].payloads[batch_id]->member_updates, member),
{
    let frames = a.stages[source].payloads[batch_id]->frames;
    let recorded = a.stages[source].payloads[batch_id]->member_updates;
    let between = b.stages[middle].payloads;
    let frames2 = c.stages[dest].payloads[new_batch_id]->frames;
    let recorded2 = c.stages[dest].payloads[new_batch_id]->member_updates;
    assert forall|i: int| 0 <= i < ids.len() implies between.contains_key(#[trigger] ids[i])
        && frames.contains_key(ids[i]) by {
        assert(ids.to_set().contains(ids[i]));
    }
    assert forall|k: i64| frames.contains_key(k) implies between[k].frame_of() == frames[k]
        && between[k].updates_of() == member_updates_of(recorded, k) by {
        assert(between.contains_key(k));
    }
    assert(frames2 =~= frames);
    assert forall|member: i64|
        member_updates_of(recorded2, member) == member_updates_of(recorded, member) by {
        lemma_member_updates_of_flattened(ids, between, member);
        if ids.contains(member) {
            assert(ids.to_set().contains(member));
        } else {
            assert(!frames.contains_key(member)) by {
                if frames.contains_key(member) {
                    assert(ids.to_set().contains(member));
                }
            }
            lemma_member_updates_of_stranger(recorded, member);
        }
    }
}

} // verus!
