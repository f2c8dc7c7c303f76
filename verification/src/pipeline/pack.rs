//! Movement of independent frames into a new batch in a later stage.

use vstd::prelude::*;
use crate::error::PipelineError;
use crate::pipeline::locations::location_map_insert;
use crate::pipeline::model::{is_member, opened_under, PipelineView};
use crate::pipeline::movement::{lemma_taken, relocated, rotate_span, stage_span_name};
use crate::pipeline::payload::{
    member_update_views, PayloadView, PipelinePayload, PipelineStagePayloadType,
};
use crate::pipeline::stage::{payload_pairs, taken, StageView};
use crate::pipeline::Pipeline;
use crate::primitives::frame::VideoFrameView;
use crate::primitives::frame_batch::VideoFrameBatch;
use crate::primitives::frame_update::{update_views, VideoFrameUpdate, VideoFrameUpdateView};
use crate::telemetry::{span_entries, span_map_insert, SpanMap};

verus! {

/// The updates of a list, each with the id of the frame that they are for.
pub open spec fn tagged(id: i64, updates: Seq<VideoFrameUpdateView>) -> Seq<
    (i64, VideoFrameUpdateView),
> {
    updates.map_values(|u: VideoFrameUpdateView| (id, u))
}

impl PayloadView {
    /// The frame of a frame payload.
    pub open spec fn frame_of(self) -> VideoFrameView {
        match self {
            PayloadView::Frame { frame, updates, span } => frame,
            _ => arbitrary(),
        }
    }

    /// The updates recorded for the frame of a frame payload.
    pub open spec fn updates_of(self) -> Seq<VideoFrameUpdateView> {
        match self {
            PayloadView::Frame { frame, updates, span } => updates,
            _ => Seq::empty(),
        }
    }
}

/// The updates of the frame payloads of a list in one list, payload after
/// payload, each update with the id of its payload.
pub open spec fn flatten_updates(pairs: Seq<(i64, PayloadView)>) -> Seq<(i64, VideoFrameUpdateView)>
    decreases pairs.len(),
{
    if pairs.len() == 0 {
        Seq::empty()
    } else {
        flatten_updates(pairs.drop_last()) + tagged(pairs.last().0, pairs.last().1.updates_of())
    }
}

impl PipelineView {
    /// Why the frames of the ids are not packed into a batch in the stage of
    /// the name, where they are not: the ids have no common source stage,
    /// the stage of the name is no destination for it, the source does not
    /// hold independent frames or the destination does not take batches, or
    /// the id counter is at its end.
    pub open spec fn pack_refusal(self, name: Seq<char>, ids: Seq<i64>) -> Option<PipelineError> {
        match self.source_refusal(ids) {
            Some(e) => Some(e),
            None => {
                let source = self.locations[ids[0]] as int;
                match self.destination_refusal(source, name) {
                    Some(e) => Some(e),
                    None => if self.stages[source].kind == PipelineStagePayloadType::Batch
                        || self.stages[self.stage_index(name)].kind
                        == PipelineStagePayloadType::Frame {
                        Some(PipelineError::WrongStageKind)
                    } else if self.id_counter == i64::MAX {
                        Some(PipelineError::CounterExhausted)
                    } else {
                        None
                    },
                }
            },
        }
    }
}

/// Whether `post` is `pre` after the frames of `ids` were packed, from the
/// stage at `source`, into the new batch `batch_id` in the stage at `dest`:
/// the id counter went up by one to the id of the batch; the frames left
/// the source; the batch holds each of them under its id, their updates in
/// the order of the ids, each under the id of its frame, and for each
/// frame a span that was opened under its root span; the frames and the
/// batch are located at the destination, and the batch owns the frames.
pub open spec fn packed(
    pre: PipelineView,
    post: PipelineView,
    source: int,
    dest: int,
    ids: Seq<i64>,
    batch_id: i64,
) -> bool {
    &&& batch_id == pre.id_counter + 1
    &&& post.stages.len() == pre.stages.len()
    &&& post.stages[dest].payloads.contains_key(batch_id)
    &&& match post.stages[dest].payloads[batch_id] {
        PayloadView::Batch { frames, member_updates, spans } => {
            &&& frames.dom() == ids.to_set()
            &&& forall|k: i64| #[trigger]
                frames.contains_key(k) ==> frames[k]
                    == pre.stages[source].payloads[k].frame_of()
            &&& member_updates == flatten_updates(taken(ids, pre.stages[source].payloads))
            &&& spans.dom() == ids.to_set()
            &&& forall|k: i64| #[trigger]
                spans.contains_key(k) ==> opened_under(pre.root_spans[k], spans[k])
        },
        _ => false,
    }
    &&& post == (PipelineView {
        stages: pre.stages.update(
            source,
            StageView {
                payloads: pre.stages[source].payloads.remove_keys(ids.to_set()),
                ..pre.stages[source]
            },
        ).update(
            dest,
            StageView {
                payloads: pre.stages[dest].payloads.insert(
                    batch_id,
                    post.stages[dest].payloads[batch_id],
                ),
                ..pre.stages[dest]
            },
        ),
        locations: relocated(pre.locations, ids.to_set().insert(batch_id), dest as usize),
        owners: pre.owners.union_prefer_right(Map::new(|k: i64| ids.contains(k), |k: i64| batch_id)),
        id_counter: batch_id,
        ..pre
    })
}

/// A consistent pipeline stays consistent when frames are packed.
pub proof fn lemma_packed_wf(
    pre: PipelineView,
    post: PipelineView,
    source: int,
    dest: int,
    ids: Seq<i64>,
    batch_id: i64,
)
    requires
        pre.wf(),
        0 <= source < dest < pre.stages.len(),
        pre.stages[source].kind == PipelineStagePayloadType::Frame,
        pre.stages[dest].kind == PipelineStagePayloadType::Batch,
        pre.id_counter < i64::MAX,
        forall|i: int|
            0 <= i < ids.len() ==> pre.locations.contains_key(#[trigger] ids[i])
                && pre.locations[ids[i]] == source,
        packed(pre, post, source, dest, ids, batch_id),
    ensures
        post.wf(),
{
    let set = ids.to_set();
    assert(pre.stages[source].wf());
    assert(pre.stages[dest].wf());
    assert forall|i: int, b: i64, k: i64| 0 <= i < pre.stages.len() && i == source implies !is_member(
        pre.stages[i],
        b,
        k,
    ) by {}
    assert forall|k: i64| set.contains(k) implies pre.locations.contains_key(k)
        && pre.locations[k] == source && pre.stages[source].payloads.contains_key(k)
        && !pre.owners.contains_key(k) && !pre.stages[dest].payloads.contains_key(k)
        && pre.root_spans.contains_key(k) && k != batch_id by {
        let i = choose|i: int| 0 <= i < ids.len() && ids[i] == k;
        assert(pre.locations.contains_key(ids[i]));
        if pre.owners.contains_key(k) {
            assert(is_member(pre.stages[pre.locations[k] as int], pre.owners[k], k));
        }
    }
    assert(!pre.locations.contains_key(batch_id));
    assert(!pre.owners.contains_key(batch_id));
    assert(!pre.root_spans.contains_key(batch_id));
    assert forall|i: int| 0 <= i < pre.stages.len() implies !pre.stages[i].payloads.contains_key(
        batch_id,
    ) by {}
    assert forall|i: int, k: i64| 0 <= i < pre.stages.len() implies !is_member(
        pre.stages[i],
        batch_id,
        k,
    ) && !is_member(pre.stages[i], k, batch_id) by {}
    assert(post.locations.dom() =~= pre.locations.dom().insert(batch_id));
    assert(post.names_distinct()) by {
        assert forall|i: int, j: int| 0 <= i < j < post.stages.len() implies (
        #[trigger] post.stages[i]).name != (#[trigger] post.stages[j]).name by {
            assert(pre.stages[i].name != pre.stages[j].name);
        }
    }
    assert(post.stages_wf()) by {
        assert forall|i: int| 0 <= i < post.stages.len() implies (#[trigger] post.stages[i]).wf() by {
            assert(pre.stages[i].wf());
            if i == source {
                assert(post.stages[i].payloads.dom().subset_of(pre.stages[i].payloads.dom()));
                vstd::set_lib::lemma_set_subset_finite(
                    pre.stages[i].payloads.dom(),
                    post.stages[i].payloads.dom(),
                );
            }
            assert forall|k: i64| #[trigger]
                post.stages[i].payloads.contains_key(k) implies post.stages[i].payloads[k].kind()
                == post.stages[i].kind by {
                if !(i == dest && k == batch_id) {
                    assert(pre.stages[i].payloads.contains_key(k));
                }
            }
        }
        assert forall|i: int, b: i64|
            0 <= i < post.stages.len() && #[trigger] post.stages[i].payloads.contains_key(
                b,
            ) implies match post.stages[i].payloads[b] {
            PayloadView::Batch { frames, member_updates, spans } => spans.dom() == frames.dom(),
            _ => true,
        } by {
            if !(i == dest && b == batch_id) {
                assert(pre.stages[i].payloads.contains_key(b));
            }
        }
    }
    assert(post.locations_sound()) by {
        assert forall|k: i64| #[trigger] post.locations.contains_key(k) implies {
            &&& post.locations[k] < post.stages.len()
            &&& 0 < k <= post.id_counter
            &&& post.stages[post.locations[k] as int].payloads.contains_key(k)
                || post.owners.contains_key(k)
        } by {
            if k != batch_id {
                assert(pre.locations.contains_key(k));
                if !set.contains(k) {
                    assert(post.locations[k] == pre.locations[k]);
                }
            }
        }
    }
    assert(post.owners_sound()) by {
        assert forall|k: i64| #[trigger] post.owners.contains_key(k) implies {
            &&& post.locations.contains_key(k)
            &&& post.locations[k] < post.stages.len()
            &&& is_member(post.stages[post.locations[k] as int], post.owners[k], k)
        } by {
            if set.contains(k) {
                assert(post.owners[k] == batch_id);
                assert(is_member(post.stages[dest], batch_id, k));
            } else {
                assert(pre.owners.contains_key(k));
                let at = pre.locations[k] as int;
                assert(is_member(pre.stages[at], pre.owners[k], k));
                assert(at != source);
                assert(post.stages[at].payloads.contains_key(pre.owners[k]));
            }
        }
    }
    assert(post.payloads_located()) by {
        assert forall|i: int, k: i64|
            0 <= i < post.stages.len() && #[trigger] post.stages[i].payloads.contains_key(
                k,
            ) implies post.locations.contains_key(k) && post.locations[k] == i by {
            if !(i == dest && k == batch_id) {
                assert(pre.stages[i].payloads.contains_key(k));
            }
        }
    }
    assert(post.members_located()) by {
        assert forall|i: int, b: i64, k: i64|
            0 <= i < post.stages.len() && #[trigger] is_member(post.stages[i], b, k) implies {
            &&& post.locations.contains_key(k)
            &&& post.locations[k] == i
            &&& post.owners.contains_key(k)
            &&& post.owners[k] == b
            &&& !post.stages[i].payloads.contains_key(k)
        } by {
            if i == dest && b == batch_id {
                assert(set.contains(k));
            } else {
                assert(pre.stages[i].payloads.contains_key(b));
                assert(is_member(pre.stages[i], b, k));
            }
        }
    }
    assert(post.roots_sound()) by {
        assert forall|k: i64| #[trigger]
            post.root_spans.contains_key(k) <==> post.locations.contains_key(k)
                && !post.is_batch_id(k) by {
            assert(pre.root_spans.contains_key(k) <==> pre.locations.contains_key(k)
                && !pre.is_batch_id(k));
            if k == batch_id {
            } else if set.contains(k) {
                assert(!post.stages[dest].payloads.contains_key(k));
            } else if pre.locations.contains_key(k) {
                let at = pre.locations[k] as int;
                assert(at < pre.stages.len());
                assert(post.locations[k] == pre.locations[k]);
                if pre.stages[at].payloads.contains_key(k) {
                    assert(post.stages[at].payloads.contains_key(k));
                    assert(post.stages[at].payloads[k] == pre.stages[at].payloads[k]);
                } else {
                    assert(!post.stages[at].payloads.contains_key(k));
                }
            }
        }
    }
}

impl Pipeline {
    /// Packs the frames of the ids into a new batch in the stage of the name
    /// and returns the id of the batch. The ids must be located in one
    /// stage of independent frames, and the stage of the name must come
    /// after it and take batches: else nothing changes. The frames keep
    /// their ids inside the batch. The span of each frame's stay in the
    /// source is ended, and one for its stay in the destination is opened
    /// under its root span.
    #[verifier::loop_isolation(false)]
    pub fn move_and_pack_frames(&mut self, dest_stage_name: &str, frame_ids: Vec<i64>) -> (r: Result<
        i64,
        PipelineError,
    >)
        requires
            old(self).wf(),
        ensures
            final(self).wf(),
            match old(self)@.pack_refusal(dest_stage_name@, frame_ids@) {
                Some(e) => r == Err::<i64, PipelineError>(e) && final(self)@ == old(self)@,
                None => r is Ok && packed(
                    old(self)@,
                    final(self)@,
                    old(self)@.locations[frame_ids@[0]] as int,
                    old(self)@.stage_index(dest_stage_name@),
                    frame_ids@,
                    r->Ok_0,
                ),
            },
    {
        let ghost pre = self@;
        let source = match self.check_ids_in_the_same_stage(&frame_ids) {
            Ok(at) => at,
            Err(e) => {
                return Err(e);
            },
        };
        assert(pre.locations.contains_key(frame_ids@[0]));
        let dest = match self.find_destination(source, dest_stage_name) {
            Ok(at) => at,
            Err(e) => {
                return Err(e);
            },
        };
        assert(source < self.stages.len()) by {
            assert(pre.locations[frame_ids@[0]] < pre.stages.len());
        }
        if self.stages[source].kind() == PipelineStagePayloadType::Batch || self.stages[dest].kind()
            == PipelineStagePayloadType::Frame {
            assert(pre.stages[source as int].kind == PipelineStagePayloadType::Batch
                || pre.stages[dest as int].kind == PipelineStagePayloadType::Frame);
            return Err(PipelineError::WrongStageKind);
        }
        if self.id_counter == i64::MAX {
            return Err(PipelineError::CounterExhausted);
        }
        let ghost from = pre.stages[source as int].payloads;
        let ghost set = frame_ids@.to_set();
        proof {
            assert(pre.stages[source as int].wf());
            assert(pre.stages[dest as int].wf());
            assert forall|i: int| 0 <= i < frame_ids.len() implies from.contains_key(
                #[trigger] frame_ids@[i],
            ) && pre.locations.contains_key(frame_ids@[i]) && pre.locations[frame_ids@[i]]
                == source by {
                let k = frame_ids@[i];
                assert(pre.locations.contains_key(k));
                if pre.owners.contains_key(k) {
                    assert(is_member(pre.stages[source as int], pre.owners[k], k));
                    assert(from[pre.owners[k]].kind() == PipelineStagePayloadType::Frame);
                }
            }
            lemma_taken(frame_ids@, from);
        }
        self.id_counter = self.id_counter + 1;
        let batch_id = self.id_counter;
        let mut removed = self.stages[source].delete_many(&frame_ids);
        let ghost orig = payload_pairs(removed@);
        let ghost n = orig.len() as int;
        let ghost mid = *self;
        let span_name = stage_span_name(dest_stage_name);
        let mut batch = VideoFrameBatch::new();
        let mut batch_updates: Vec<(i64, VideoFrameUpdate)> = Vec::new();
        let mut contexts = SpanMap::new();
        let ghost mut done: int = 0;
        assert(payload_pairs(removed@) =~= orig.skip(0));
        assert(member_update_views(batch_updates@) =~= flatten_updates(orig.take(0)));
        while removed.len() > 0
            invariant
                *self == mid,
                0 <= done <= n,
                done + removed.len() == n,
                payload_pairs(removed@) == orig.skip(done),
                forall|k: i64|
                    batch@.contains_key(k) <==> exists|j: int|
                        0 <= j < done && (#[trigger] orig[j]).0 == k,
                forall|j: int|
                    0 <= j < done ==> batch@[(#[trigger] orig[j]).0] == orig[j].1.frame_of(),
                span_entries(contexts).dom() == batch@.dom(),
                forall|k: i64| #[trigger]
                    span_entries(contexts).contains_key(k) ==> opened_under(
                        pre.root_spans[k],
                        span_entries(contexts)[k],
                    ),
                member_update_views(batch_updates@) == flatten_updates(orig.take(done)),
            decreases removed.len(),
        {
            let ghost waiting = removed@;
            let ghost base = member_update_views(batch_updates@);
            let (id, payload) = removed.remove(0);
            proof {
                assert(waiting[0] == (id, payload));
                assert(payload_pairs(waiting)[0] == (id, payload@));
                assert(orig.skip(done)[0] == orig[done]);
                assert((id, payload@) == orig[done]);
                assert(removed@ =~= waiting.skip(1));
                assert(payload_pairs(removed@) =~= payload_pairs(waiting).skip(1));
                assert(orig.skip(done).skip(1) =~= orig.skip(done + 1));
                assert(payload_pairs(removed@) =~= orig.skip(done + 1));
                assert(from.contains_key(id));
                assert(payload@.kind() == PipelineStagePayloadType::Frame);
                assert(orig.take(done + 1).drop_last() =~= orig.take(done));
                assert(orig.take(done + 1).last() == orig[done]);
                assert(payload@ == from[id]);
                assert(pre.locations.contains_key(id) && pre.locations[id] == source);
                assert(!pre.is_batch_id(id));
                assert(pre.root_spans.contains_key(id));
                assert(span_entries(self.root_spans) == pre.root_spans);
            }
            match payload {
                PipelinePayload::Frame(frame, updates, span) => {
                    batch.add(id, frame);
                    let fresh = rotate_span(&self.root_spans, id, &span, span_name.as_str());
                    let _ = span_map_insert(&mut contexts, id, fresh);
                    let ghost all = update_views(updates@);
                    let mut updates = updates;
                    let ghost mut moved: int = 0;
                    assert(update_views(updates@) =~= all.skip(0));
                    assert(member_update_views(batch_updates@) =~= base + tagged(id, all.take(0)));
                    while updates.len() > 0
                        invariant
                            0 <= moved <= all.len(),
                            moved + updates.len() == all.len(),
                            update_views(updates@) == all.skip(moved),
                            member_update_views(batch_updates@) == base + tagged(
                                id,
                                all.take(moved),
                            ),
                        decreases updates.len(),
                    {
                        let ghost left = updates@;
                        let ghost sofar = member_update_views(batch_updates@);
                        let update = updates.remove(0);
                        proof {
                            assert(left[0] == update);
                            assert(update_views(left)[0] == update@);
                            assert(all.skip(moved)[0] == all[moved]);
                            assert(updates@ =~= left.skip(1));
                            assert(update_views(updates@) =~= update_views(left).skip(1));
                            assert(all.skip(moved).skip(1) =~= all.skip(moved + 1));
                            assert(update_views(updates@) =~= all.skip(moved + 1));
                        }
                        batch_updates.push((id, update));
                        proof {
                            assert(member_update_views(batch_updates@) =~= sofar.push(
                                (id, update@),
                            ));
                            assert(tagged(id, all.take(moved + 1)) =~= tagged(
                                id,
                                all.take(moved),
                            ).push((id, all[moved])));
                            assert(member_update_views(batch_updates@) =~= base + tagged(
                                id,
                                all.take(moved + 1),
                            ));
                            moved = moved + 1;
                        }
                    }
                    proof {
                        assert(all.take(moved) =~= all);
                        assert(span_entries(contexts).dom() =~= batch@.dom());
                        assert forall|k: i64|
                            batch@.contains_key(k) <==> exists|j: int|
                                0 <= j < done + 1 && (#[trigger] orig[j]).0 == k by {
                            if batch@.contains_key(k) && k != id {
                                let j = choose|j: int| 0 <= j < done && (#[trigger] orig[j]).0 == k;
                            }
                            if k == id {
                                assert(orig[done].0 == k);
                            }
                        }
                        assert forall|j: int| 0 <= j < done + 1 implies batch@[(
                        #[trigger] orig[j]).0] == orig[j].1.frame_of() by {
                            if j < done {
                                assert(orig[j].0 != orig[done].0);
                            }
                        }
                    }
                },
                PipelinePayload::Batch(..) => {
                    proof {
                        assert(false);
                    }
                },
            }
            proof {
                done = done + 1;
            }
        }
        assert(orig.take(done) =~= orig);
        let payload = PipelinePayload::Batch(batch, batch_updates, contexts);
        assert(!pre.locations.contains_key(batch_id));
        assert(!pre.stages[dest as int].payloads.contains_key(batch_id));
        let added = self.stages[dest].add_batch_payload(batch_id, payload);
        assert(added is Ok);
        self.update_frame_locations(&frame_ids, dest);
        let _ = location_map_insert(&mut self.frame_locations, batch_id, dest);
        self.owners = Ghost(
            pre.owners.union_prefer_right(Map::new(|k: i64| frame_ids@.contains(k), |k: i64| batch_id)),
        );
        proof {
            let post = self@;
            let made = post.stages[dest as int].payloads[batch_id];
            assert(batch@.dom() =~= set) by {
                assert forall|k: i64| batch@.contains_key(k) <==> set.contains(k) by {
                    if batch@.contains_key(k) {
                        let j = choose|j: int| 0 <= j < n && (#[trigger] orig[j]).0 == k;
                        assert(frame_ids@.contains(orig[j].0));
                    }
                    if set.contains(k) {
                        let i = choose|i: int| 0 <= i < frame_ids@.len() && frame_ids@[i] == k;
                        let j = choose|j: int|
                            0 <= j < orig.len() && (#[trigger] orig[j]).0 == frame_ids@[i];
                    }
                }
            }
            assert forall|k: i64| #[trigger] batch@.contains_key(k) implies batch@[k]
                == from[k].frame_of() by {
                let j = choose|j: int| 0 <= j < n && (#[trigger] orig[j]).0 == k;
                assert(orig[j].1 == from[orig[j].0]);
            }
            assert(post.stages =~= pre.stages.update(
                source as int,
                StageView { payloads: from.remove_keys(set), ..pre.stages[source as int] },
            ).update(
                dest as int,
                StageView {
                    payloads: pre.stages[dest as int].payloads.insert(batch_id, made),
                    ..pre.stages[dest as int]
                },
            ));
            assert(post.locations =~= relocated(pre.locations, set.insert(batch_id), dest));
            assert(packed(pre, post, source as int, dest as int, frame_ids@, batch_id));
            lemma_packed_wf(pre, post, source as int, dest as int, frame_ids@, batch_id);
        }
        Ok(batch_id)
    }
}

} // verus!
