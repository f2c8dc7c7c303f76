//! Movement of the frames of a batch, as independent frames, to a later
//! stage.

use vstd::prelude::*;
use crate::error::PipelineError;
use crate::pipeline::locations::location_map_remove;
use crate::pipeline::model::{is_member, opened_under, PipelineView};
use crate::pipeline::movement::{
    lemma_inserted_all, relocated, rotate_span, stage_span_name,
};
use crate::pipeline::payload::{
    member_update_views, PayloadView, PipelinePayload, PipelineStagePayloadType,
};
use crate::pipeline::stage::{inserted_all, payload_pairs, StageView};
use crate::pipeline::Pipeline;
use crate::primitives::frame_update::{update_views, VideoFrameUpdate, VideoFrameUpdateView};
use crate::id_sets::lemma_take_push_set;
use crate::telemetry::span_entries;

verus! {

/// The updates of the list that are for the frame of the id, in their
/// order.
pub open spec fn member_updates_of(updates: Seq<(i64, VideoFrameUpdateView)>, id: i64) -> Seq<
    VideoFrameUpdateView,
>
    decreases updates.len(),
{
    if updates.len() == 0 {
        Seq::empty()
    } else {
        let before = member_updates_of(updates.drop_last(), id);
        if updates.last().0 == id {
            before.push(updates.last().1)
        } else {
            before
        }
    }
}

/// Copies of the updates of the list that are for the frame of the id.
pub fn collect_updates(updates: &Vec<(i64, VideoFrameUpdate)>, id: i64) -> (r: Vec<
    VideoFrameUpdate,
>)
    ensures
        update_views(r@) == member_updates_of(member_update_views(updates@), id),
{
    let ghost all = member_update_views(updates@);
    let mut out: Vec<VideoFrameUpdate> = Vec::new();
    let mut i: usize = 0;
    assert(update_views(out@) =~= member_updates_of(all.take(0), id));
    while i < updates.len()
        invariant
            i <= updates.len(),
            all == member_update_views(updates@),
            update_views(out@) == member_updates_of(all.take(i as int), id),
        decreases updates.len() - i,
    {
        proof {
            assert(all.take(i as int + 1).drop_last() =~= all.take(i as int));
            assert(all.take(i as int + 1).last() == (updates@[i as int].0, updates@[i as int].1@));
        }
        if updates[i].0 == id {
            let ghost before = update_views(out@);
            let copy = updates[i].1.clone();
            out.push(copy);
            assert(update_views(out@) =~= before.push(copy@));
        }
        i += 1;
    }
    assert(all.take(i as int) =~= all);
    out
}

/// Whether every update of the list is for a frame of the map.
pub open spec fn updates_have_members<V>(
    updates: Seq<(i64, VideoFrameUpdateView)>,
    frames: Map<i64, V>,
) -> bool {
    forall|i: int| 0 <= i < updates.len() ==> frames.contains_key((#[trigger] updates[i]).0)
}

impl PipelineView {
    /// Why the batch of the id is not unpacked into the stage of the name,
    /// where it is not: the id is not located, the stage of the name is no
    /// destination for its stage, its stage does not hold batches or the
    /// destination does not take independent frames, the id is not the id
    /// of a batch, or an update of the batch is for a frame that the batch
    /// does not have.
    pub open spec fn unpack_refusal(self, name: Seq<char>, batch_id: i64) -> Option<
        PipelineError,
    > {
        if !self.locations.contains_key(batch_id) {
            Some(PipelineError::NotFound)
        } else {
            let source = self.locations[batch_id] as int;
            match self.destination_refusal(source, name) {
                Some(e) => Some(e),
                None => if self.stages[source].kind == PipelineStagePayloadType::Frame
                    || self.stages[self.stage_index(name)].kind
                    == PipelineStagePayloadType::Batch {
                    Some(PipelineError::WrongStageKind)
                } else if !self.stages[source].payloads.contains_key(batch_id) {
                    Some(PipelineError::NotFound)
                } else {
                    match self.stages[source].payloads[batch_id] {
                        PayloadView::Batch { frames, member_updates, spans } => if updates_have_members(
                            member_updates,
                            frames,
                        ) {
                            None
                        } else {
                            Some(PipelineError::NotFound)
                        },
                        _ => Some(PipelineError::WrongPayload),
                    }
                },
            }
        }
    }
}

/// Whether `post` is `pre` after the batch `batch_id` was unpacked from the
/// stage at `source` into the stage at `dest`: the batch left the source, and
/// its id the book-keeping; each of its frames stands in the destination
/// under its id, with the updates that the batch had recorded for it, in
/// their order, and with a span that was opened under its root span; the
/// frames are located at the destination and owned by no batch.
pub open spec fn unpacked(
    pre: PipelineView,
    post: PipelineView,
    source: int,
    dest: int,
    batch_id: i64,
) -> bool {
    match pre.stages[source].payloads[batch_id] {
        PayloadView::Batch { frames, member_updates, spans } => {
            &&& post.stages.len() == pre.stages.len()
            &&& forall|i: int|
                0 <= i < pre.stages.len() && i != source && i != dest ==> #[trigger] post.stages[i]
                    == pre.stages[i]
            &&& post.stages[source] == (StageView {
                payloads: pre.stages[source].payloads.remove(batch_id),
                ..pre.stages[source]
            })
            &&& post.stages[dest].name == pre.stages[dest].name
            &&& post.stages[dest].kind == pre.stages[dest].kind
            &&& forall|k: i64| #[trigger]
                post.stages[dest].payloads.contains_key(k)
                    <==> pre.stages[dest].payloads.contains_key(k) || frames.contains_key(k)
            &&& forall|k: i64| #[trigger]
                pre.stages[dest].payloads.contains_key(k) ==> post.stages[dest].payloads[k]
                    == pre.stages[dest].payloads[k]
            &&& forall|k: i64| #[trigger]
                frames.contains_key(k) ==> match post.stages[dest].payloads[k] {
                    PayloadView::Frame { frame, updates, span } => frame == frames[k] && updates
                        == member_updates_of(member_updates, k) && opened_under(
                        pre.root_spans[k],
                        span,
                    ),
                    _ => false,
                }
            &&& post.locations == relocated(
                pre.locations.remove(batch_id),
                frames.dom(),
                dest as usize,
            )
            &&& post.owners == pre.owners.remove_keys(frames.dom())
            &&& post.root_spans == pre.root_spans
            &&& post.id_counter == pre.id_counter
            &&& post.frame_counter == pre.frame_counter
            &&& post.sampling_period == pre.sampling_period
            &&& post.root_span_name == pre.root_span_name
        },
        _ => false,
    }
}

/// A consistent pipeline stays consistent when a batch is unpacked.
pub proof fn lemma_unpacked_wf(
    pre: PipelineView,
    post: PipelineView,
    source: int,
    dest: int,
    batch_id: i64,
)
    requires
        pre.wf(),
        0 <= source < dest < pre.stages.len(),
        pre.stages[source].kind == PipelineStagePayloadType::Batch,
        pre.stages[dest].kind == PipelineStagePayloadType::Frame,
        pre.stages[source].payloads.contains_key(batch_id),
        pre.stages[source].payloads[batch_id].members().finite(),
        unpacked(pre, post, source, dest, batch_id),
    ensures
        post.wf(),
{
    let frames = pre.stages[source].payloads[batch_id].members();
    assert(pre.stages[source].wf());
    assert(pre.stages[dest].wf());
    assert(pre.locations.contains_key(batch_id) && pre.locations[batch_id] == source);
    assert forall|b: i64, k: i64| !is_member(pre.stages[dest], b, k) by {}
    assert forall|k: i64| frames.contains(k) implies pre.locations.contains_key(k)
        && pre.locations[k] == source && pre.owners.contains_key(k) && pre.owners[k] == batch_id
        && !pre.stages[source].payloads.contains_key(k) && !pre.stages[dest].payloads.contains_key(
        k,
    ) && k != batch_id && pre.root_spans.contains_key(k) by {
        assert(is_member(pre.stages[source], batch_id, k));
    }
    assert(!pre.owners.contains_key(batch_id)) by {
        if pre.owners.contains_key(batch_id) {
            assert(is_member(pre.stages[source], pre.owners[batch_id], batch_id));
        }
    }
    assert(post.locations.dom() =~= pre.locations.dom().remove(batch_id));
    assert(post.names_distinct()) by {
        assert forall|i: int, j: int| 0 <= i < j < post.stages.len() implies (
        #[trigger] post.stages[i]).name != (#[trigger] post.stages[j]).name by {
            assert(pre.stages[i].name != pre.stages[j].name);
        }
    }
    assert(post.stages_wf()) by {
        assert forall|i: int| 0 <= i < post.stages.len() implies (#[trigger] post.stages[i]).wf() by {
            assert(pre.stages[i].wf());
            if i == dest {
                assert(post.stages[i].payloads.dom() =~= pre.stages[i].payloads.dom().union(
                    frames,
                ));
                vstd::set::axiom_set_union_finite(pre.stages[i].payloads.dom(), frames);
            }
            assert forall|k: i64| #[trigger]
                post.stages[i].payloads.contains_key(k) implies post.stages[i].payloads[k].kind()
                == post.stages[i].kind by {
                if i == dest && frames.contains(k) {
                } else {
                    assert(pre.stages[i].payloads.contains_key(k));
                }
            }
        }
        assert forall|i: int, b: i64|
            0 <= i < post.stages.len() && #[trigger] post.stages[i].payloads.contains_key(
                b,
            ) implies match post.stages[i].payloads[b] {
            PayloadView::Batch { frames, member_updates, spans } => spans.dom() == frames.dom(),
            _ => true,
        } by {
            if i == dest && frames.contains(b) {
            } else {
                assert(pre.stages[i].payloads.contains_key(b));
            }
        }
    }
    assert(post.locations_sound()) by {
        assert forall|k: i64| #[trigger] post.locations.contains_key(k) implies {
            &&& post.locations[k] < post.stages.len()
            &&& 0 < k <= post.id_counter
            &&& post.stages[post.locations[k] as int].payloads.contains_key(k)
                || post.owners.contains_key(k)
        } by {
            assert(pre.locations.contains_key(k));
            if frames.contains(k) {
                assert(post.stages[dest].payloads.contains_key(k));
            } else {
                assert(post.locations[k] == pre.locations[k]);
            }
        }
    }
    assert(post.owners_sound()) by {
        assert forall|k: i64| #[trigger] post.owners.contains_key(k) implies {
            &&& post.locations.contains_key(k)
            &&& post.locations[k] < post.stages.len()
            &&& is_member(post.stages[post.locations[k] as int], post.owners[k], k)
        } by {
            assert(pre.owners.contains_key(k));
            let at = pre.locations[k] as int;
            assert(is_member(pre.stages[at], pre.owners[k], k));
            assert(post.stages[at].payloads.contains_key(pre.owners[k]));
        }
    }
    assert(post.payloads_located()) by {
        assert forall|i: int, k: i64|
            0 <= i < post.stages.len() && #[trigger] post.stages[i].payloads.contains_key(
                k,
            ) implies post.locations.contains_key(k) && post.locations[k] == i by {
            if i == dest && frames.contains(k) {
            } else {
                assert(pre.stages[i].payloads.contains_key(k));
            }
        }
    }
    assert(post.members_located()) by {
        assert forall|i: int, b: i64, k: i64|
            0 <= i < post.stages.len() && #[trigger] is_member(post.stages[i], b, k) implies {
            &&& post.locations.contains_key(k)
            &&& post.locations[k] == i
            &&& post.owners.contains_key(k)
            &&& post.owners[k] == b
            &&& !post.stages[i].payloads.contains_key(k)
        } by {
            if i == dest {
                if frames.contains(b) {
                } else {
                    assert(pre.stages[i].payloads.contains_key(b));
                }
            } else {
                assert(pre.stages[i].payloads.contains_key(b));
                assert(is_member(pre.stages[i], b, k));
            }
        }
    }
    assert(post.roots_sound()) by {
        assert forall|k: i64| #[trigger]
            post.root_spans.contains_key(k) <==> post.locations.contains_key(k)
                && !post.is_batch_id(k) by {
            assert(pre.root_spans.contains_key(k) <==> pre.locations.contains_key(k)
                && !pre.is_batch_id(k));
            if k == batch_id {
                assert(pre.is_batch_id(k));
            } else if frames.contains(k) {
                assert(post.stages[dest].payloads.contains_key(k));
            } else if pre.locations.contains_key(k) {
                let at = pre.locations[k] as int;
                assert(at < pre.stages.len());
                assert(post.locations[k] == pre.locations[k]);
                if pre.stages[at].payloads.contains_key(k) {
                    assert(post.stages[at].payloads.contains_key(k));
                    assert(post.stages[at].payloads[k] == pre.stages[at].payloads[k]);
                } else {
                    assert(!post.stages[at].payloads.contains_key(k));
                }
            }
        }
    }
}

/// Whether every update of the list is for a frame of the batch.
fn check_updates(
    updates: &Vec<(i64, VideoFrameUpdate)>,
    batch: &crate::primitives::frame_batch::VideoFrameBatch,
) -> (r: bool)
    ensures
        r == updates_have_members(member_update_views(updates@), batch@),
{
    let ghost all = member_update_views(updates@);
    let mut i: usize = 0;
    while i < updates.len()
        invariant
            i <= updates.len(),
            all == member_update_views(updates@),
            forall|k: int| 0 <= k < i ==> batch@.contains_key((#[trigger] all[k]).0),
        decreases updates.len() - i,
    {
        if !batch.contains(updates[i].0) {
            assert(!batch@.contains_key(all[i as int].0));
            return false;
        }
        i += 1;
    }
    true
}

impl Pipeline {
    /// Unpacks the batch of the id into the stage of the name and returns
    /// the ids of its frames, each once, in no stated order. The id must be
    /// the id of a batch, and the stage of the name must come after the
    /// stage of the batch and take independent frames: else nothing
    /// changes. Each frame becomes a payload of its own under its id, with
    /// the updates that the batch had recorded for it. The span of each
    /// frame's stay in the source is ended, and one for its stay in the
    /// destination is opened under its root span.
    #[verifier::loop_isolation(false)]
    pub fn move_and_unpack_batch(&mut self, dest_stage_name: &str, batch_id: i64) -> (r: Result<
        Vec<i64>,
        PipelineError,
    >)
        requires
            old(self).wf(),
        ensures
            final(self).wf(),
            match old(self)@.unpack_refusal(dest_stage_name@, batch_id) {
                Some(e) => r == Err::<Vec<i64>, PipelineError>(e) && final(self)@ == old(self)@,
                None => r is Ok && unpacked(
                    old(self)@,
                    final(self)@,
                    old(self)@.locations[batch_id] as int,
                    old(self)@.stage_index(dest_stage_name@),
                    batch_id,
                ) && r->Ok_0@.no_duplicates() && r->Ok_0@.to_set() == old(self)@.payload_of(
                    batch_id,
                )->Some_0.members(),
            },
    {
        let ghost pre = self@;
        let source = match self.get_stage_for_id(batch_id) {
            Ok(at) => at,
            Err(e) => {
                return Err(e);
            },
        };
        let dest = match self.find_destination(source, dest_stage_name) {
            Ok(at) => at,
            Err(e) => {
                return Err(e);
            },
        };
        assert(source < self.stages.len());
        if self.stages[source].kind() == PipelineStagePayloadType::Frame || self.stages[dest].kind()
            == PipelineStagePayloadType::Batch {
            assert(pre.stages[source as int].kind == PipelineStagePayloadType::Frame
                || pre.stages[dest as int].kind == PipelineStagePayloadType::Batch);
            return Err(PipelineError::WrongStageKind);
        }
        assert(pre.stages[source as int].wf());
        assert(pre.stages[dest as int].wf());
        let ghost from = pre.stages[source as int].payloads;
        let (batch, updates, spans) = match self.stages[source].delete(batch_id) {
            None => {
                assert(from.remove(batch_id) =~= from);
                assert(self@.stages =~= pre.stages);
                return Err(PipelineError::NotFound);
            },
            Some(PipelinePayload::Frame(frame, updates, span)) => {
                proof {
                    assert(from.contains_key(batch_id));
                    assert(from[batch_id].kind() == PipelineStagePayloadType::Batch);
                    assert(false);
                }
                return Err(PipelineError::WrongPayload);
            },
            Some(PipelinePayload::Batch(batch, updates, spans)) => (batch, updates, spans),
        };
        let ghost frames = batch@;
        let ghost recorded = member_update_views(updates@);
        let ghost stays = span_entries(spans);
        assert(from[batch_id] == (PayloadView::Batch {
            frames,
            member_updates: recorded,
            spans: stays,
        }));
        assert(stays.dom() == frames.dom());
        if !check_updates(&updates, &batch) {
            let back = self.stages[source].add_batch_payload(
                batch_id,
                PipelinePayload::Batch(batch, updates, spans),
            );
            proof {
                assert(back is Ok);
                assert(from.remove(batch_id).insert(batch_id, from[batch_id]) =~= from);
                assert(self@.stages =~= pre.stages);
            }
            return Err(PipelineError::NotFound);
        }
        let ghost mid = *self;
        let span_name = stage_span_name(dest_stage_name);
        let frame_ids = batch.ids();
        let mut batch = batch;
        let mut payloads: Vec<(i64, PipelinePayload)> = Vec::new();
        let mut i: usize = 0;
        assert(batch@ =~= frames.remove_keys(frame_ids@.take(0).to_set()));
        while i < frame_ids.len()
            invariant
                *self == mid,
                i <= frame_ids.len(),
                payloads.len() == i,
                batch@ == frames.remove_keys(frame_ids@.take(i as int).to_set()),
                forall|j: int|
                    0 <= j < i ==> (#[trigger] payloads@[j]).0 == frame_ids@[j]
                        && match payloads@[j].1@ {
                        PayloadView::Frame { frame, updates, span } => frame
                            == frames[frame_ids@[j]] && updates == member_updates_of(
                            recorded,
                            frame_ids@[j],
                        ) && opened_under(pre.root_spans[frame_ids@[j]], span),
                        _ => false,
                    },
            decreases frame_ids.len() - i,
        {
            let id = frame_ids[i];
            proof {
                lemma_take_push_set(frame_ids@, i as int);
                assert(frame_ids@.to_set().contains(id));
                assert(!frame_ids@.take(i as int).to_set().contains(id)) by {
                    if frame_ids@.take(i as int).to_set().contains(id) {
                        let k = choose|k: int|
                            0 <= k < frame_ids@.take(i as int).len() && frame_ids@.take(
                                i as int,
                            )[k] == id;
                        assert(frame_ids@[k] == frame_ids@[i as int]);
                    }
                }
            }
            proof {
                assert(frames.contains_key(id));
                assert(is_member(pre.stages[source as int], batch_id, id));
                assert(pre.locations.contains_key(id) && pre.locations[id] == source);
                assert(!pre.is_batch_id(id));
                assert(pre.root_spans.contains_key(id));
                assert(span_entries(self.root_spans) == pre.root_spans);
            }
            match batch.take(id) {
                Some(frame) => {
                    let fresh = match spans.get(id) {
                        Some(span) => rotate_span(&self.root_spans, id, &span, span_name.as_str()),
                        None => self.get_stage_span(id, span_name.as_str()),
                    };
                    let own = collect_updates(&updates, id);
                    payloads.push((id, PipelinePayload::Frame(frame, own, fresh)));
                },
                None => {
                    proof {
                        assert(false);
                    }
                },
            }
            assert(batch@ =~= frames.remove_keys(frame_ids@.take(i as int + 1).to_set()));
            i += 1;
        }
        let ghost pairs = payload_pairs(payloads@);
        let ghost n = pairs.len() as int;
        proof {
            assert forall|j: int| 0 <= j < n implies (#[trigger] pairs[j]).0 == frame_ids@[j]
                && pairs[j].1 == payloads@[j].1@ by {}
            assert forall|k: i64| frames.contains_key(k) implies pre.locations.contains_key(k)
                && pre.locations[k] == source && !pre.stages[dest as int].payloads.contains_key(k) by {
                assert(is_member(pre.stages[source as int], batch_id, k));
            }
            assert forall|j: int| 0 <= j < n implies frames.contains_key(frame_ids@[j]) by {
                assert(frame_ids@.to_set().contains(frame_ids@[j]));
            }
            assert forall|a: int, b: int| 0 <= a < b < n implies (#[trigger] pairs[a]).0 != (
            #[trigger] pairs[b]).0 by {}
            assert(self@.stages[dest as int].list_refusal(pairs) is None);
            lemma_inserted_all(pre.stages[dest as int].payloads, pairs);
        }
        let added = self.stages[dest].add_payloads(payloads);
        assert(added is Ok);
        let _ = location_map_remove(&mut self.frame_locations, batch_id);
        self.update_frame_locations(&frame_ids, dest);
        self.owners = Ghost(pre.owners.remove_keys(frames.dom()));
        proof {
            let post = self@;
            let into = inserted_all(pre.stages[dest as int].payloads, pairs);
            assert(post.stages[dest as int].payloads == into);
            assert forall|k: i64| frames.contains_key(k) implies exists|j: int|
                0 <= j < n && (#[trigger] pairs[j]).0 == k by {
                assert(frame_ids@.to_set().contains(k));
                let j = choose|j: int| 0 <= j < frame_ids@.len() && frame_ids@[j] == k;
                assert(pairs[j].0 == k);
            }
            assert forall|k: i64| #[trigger]
                post.stages[dest as int].payloads.contains_key(k)
                    <==> pre.stages[dest as int].payloads.contains_key(k) || frames.contains_key(
                    k,
                ) by {
                if frames.contains_key(k) {
                    let j = choose|j: int| 0 <= j < n && (#[trigger] pairs[j]).0 == k;
                }
                if into.contains_key(k) && !pre.stages[dest as int].payloads.contains_key(k) {
                    let j = choose|j: int| 0 <= j < n && (#[trigger] pairs[j]).0 == k;
                    assert(frames.contains_key(frame_ids@[j]));
                }
            }
            assert forall|k: i64| #[trigger]
                pre.stages[dest as int].payloads.contains_key(k) implies post.stages[dest as int].payloads[k]
                == pre.stages[dest as int].payloads[k] by {
                assert forall|j: int| 0 <= j < n implies (#[trigger] pairs[j]).0 != k by {
                    assert(frames.contains_key(frame_ids@[j]));
                }
            }
            assert forall|k: i64| #[trigger] frames.contains_key(k) implies match post.stages[dest as int].payloads[k] {
                PayloadView::Frame { frame, updates, span } => frame == frames[k] && updates
                    == member_updates_of(recorded, k) && opened_under(pre.root_spans[k], span),
                _ => false,
            } by {
                let j = choose|j: int| 0 <= j < n && (#[trigger] pairs[j]).0 == k;
                assert(into[pairs[j].0] == pairs[j].1);
                assert(pairs[j].1 == payloads@[j].1@);
            }
            assert(post.locations =~= relocated(
                pre.locations.remove(batch_id),
                frames.dom(),
                dest,
            ));
            assert forall|i: int|
                0 <= i < pre.stages.len() && i != source && i != dest implies #[trigger] post.stages[i]
                == pre.stages[i] by {}
            assert(unpacked(pre, post, source as int, dest as int, batch_id));
            lemma_unpacked_wf(pre, post, source as int, dest as int, batch_id);
        }
        Ok(frame_ids)
    }
}

} // verus!
