//! Movement of payloads, unchanged, to a later stage of the same kind.

use vstd::prelude::*;
use crate::error::PipelineError;
use crate::pipeline::model::{is_member, PipelineView};
use crate::pipeline::movement::{
    has_roots, lemma_inserted_all, lemma_taken, relocated, rotate_payload, rotated,
    stage_span_name,
};
use crate::pipeline::payload::{PayloadView, PipelinePayload};
use crate::pipeline::stage::{inserted_all, payload_pairs, StageView};
use crate::pipeline::Pipeline;
use crate::telemetry::span_entries;

verus! {

impl PipelineView {
    /// Why the payloads of the ids are not moved as they are to the stage of
    /// the name, where they are not: the ids have no common source stage,
    /// the stage of the name is no destination for it, the two stages are
    /// not of one kind, or an id is not the id of a payload.
    pub open spec fn move_refusal(self, name: Seq<char>, ids: Seq<i64>) -> Option<PipelineError> {
        match self.source_refusal(ids) {
            Some(e) => Some(e),
            None => {
                let source = self.locations[ids[0]] as int;
                match self.destination_refusal(source, name) {
                    Some(e) => Some(e),
                    None => if self.stages[source].kind != self.stages[self.stage_index(
                        name,
                    )].kind {
                        Some(PipelineError::WrongStageKind)
                    } else if exists|i: int|
                        0 <= i < ids.len() && !self.stages[source].payloads.contains_key(
                            #[trigger] ids[i],
                        ) {
                        Some(PipelineError::NotFound)
                    } else {
                        None
                    },
                }
            },
        }
    }

    /// The ids that change their stage when the payloads of `ids` move: the
    /// ids themselves, and the frames of the batches among them.
    pub open spec fn moving(self, ids: Set<i64>) -> Set<i64> {
        Set::new(
            |k: i64| ids.contains(k) || (self.owners.contains_key(k) && ids.contains(self.owners[k])),
        )
    }
}

/// Whether `post` is `pre` after the payloads of `ids` moved as they are
/// from the stage at `source` to the stage at `dest`: they left the source,
/// they stand in the destination with the same frames and updates and with
/// spans of the new stay, they and the frames of the batches among them are
/// located at the destination, and nothing else changed.
pub open spec fn moved_as_is(
    pre: PipelineView,
    post: PipelineView,
    source: int,
    dest: int,
    ids: Set<i64>,
) -> bool {
    &&& post.stages.len() == pre.stages.len()
    &&& forall|i: int|
        0 <= i < pre.stages.len() && i != source && i != dest ==> #[trigger] post.stages[i]
            == pre.stages[i]
    &&& post.stages[source] == (StageView {
        payloads: pre.stages[source].payloads.remove_keys(ids),
        ..pre.stages[source]
    })
    &&& post.stages[dest].name == pre.stages[dest].name
    &&& post.stages[dest].kind == pre.stages[dest].kind
    &&& forall|k: i64| #[trigger]
        post.stages[dest].payloads.contains_key(k) <==> pre.stages[dest].payloads.contains_key(k)
            || ids.contains(k)
    &&& forall|k: i64| #[trigger]
        pre.stages[dest].payloads.contains_key(k) ==> post.stages[dest].payloads[k]
            == pre.stages[dest].payloads[k]
    &&& forall|k: i64| #[trigger]
        ids.contains(k) ==> rotated(
            pre.root_spans,
            k,
            pre.stages[source].payloads[k],
            post.stages[dest].payloads[k],
        )
    &&& post.locations == relocated(pre.locations, pre.moving(ids), dest as usize)
    &&& post.root_spans == pre.root_spans
    &&& post.owners == pre.owners
    &&& post.id_counter == pre.id_counter
    &&& post.frame_counter == pre.frame_counter
    &&& post.sampling_period == pre.sampling_period
    &&& post.root_span_name == pre.root_span_name
}

/// A consistent pipeline stays consistent when payloads move as they are.
pub proof fn lemma_moved_as_is_wf(
    pre: PipelineView,
    post: PipelineView,
    source: int,
    dest: int,
    ids: Set<i64>,
)
    requires
        pre.wf(),
        0 <= source < dest < pre.stages.len(),
        pre.stages[source].kind == pre.stages[dest].kind,
        ids.finite(),
        forall|k: i64| ids.contains(k) ==> pre.stages[source].payloads.contains_key(k),
        moved_as_is(pre, post, source, dest, ids),
    ensures
        post.wf(),
{
    let going = pre.moving(ids);
    assert forall|k: i64| ids.contains(k) implies pre.locations.contains_key(k)
        && pre.locations[k] == source && !pre.owners.contains_key(k)
        && !pre.stages[dest].payloads.contains_key(k) by {
        assert(pre.stages[source].payloads.contains_key(k));
        if pre.owners.contains_key(k) {
            assert(is_member(pre.stages[pre.locations[k] as int], pre.owners[k], k));
        }
    }
    assert forall|k: i64|
        pre.owners.contains_key(k) && ids.contains(pre.owners[k]) implies pre.locations[k]
        == source && pre.locations.contains_key(k) && is_member(
        pre.stages[source],
        pre.owners[k],
        k,
    ) && !pre.stages[source].payloads.contains_key(k) && !pre.stages[dest].payloads.contains_key(
        k,
    ) && !ids.contains(k) by {
        let at = pre.locations[k] as int;
        assert(is_member(pre.stages[at], pre.owners[k], k));
        assert(pre.stages[at].payloads.contains_key(pre.owners[k]));
        assert(pre.stages[source].payloads.contains_key(pre.owners[k]));
    }
    assert forall|k: i64| ids.contains(k) implies post.stages[dest].payloads[k].kind()
        == pre.stages[source].payloads[k].kind() && post.stages[dest].payloads[k].members()
        == pre.stages[source].payloads[k].members() && match post.stages[dest].payloads[k] {
        PayloadView::Batch { frames, member_updates, spans } => spans.dom() == frames.dom(),
        _ => true,
    } by {
        assert(pre.stages[source].payloads.contains_key(k));
        assert(rotated(
            pre.root_spans,
            k,
            pre.stages[source].payloads[k],
            post.stages[dest].payloads[k],
        ));
    }
    assert(post.locations.dom() =~= pre.locations.dom());
    assert(post.names_distinct()) by {
        assert forall|i: int, j: int| 0 <= i < j < post.stages.len() implies (
        #[trigger] post.stages[i]).name != (#[trigger] post.stages[j]).name by {
            assert(pre.stages[i].name != pre.stages[j].name);
        }
    }
    assert(post.stages_wf()) by {
        assert forall|i: int| 0 <= i < post.stages.len() implies (#[trigger] post.stages[i]).wf() by {
            assert(pre.stages[i].wf());
            if i == dest {
                assert(post.stages[i].payloads.dom() =~= pre.stages[i].payloads.dom().union(ids));
                vstd::set::axiom_set_union_finite(pre.stages[i].payloads.dom(), ids);
            } else if i == source {
                assert(post.stages[i].payloads.dom().subset_of(pre.stages[i].payloads.dom()));
                vstd::set_lib::lemma_set_subset_finite(
                    pre.stages[i].payloads.dom(),
                    post.stages[i].payloads.dom(),
                );
            }
            assert forall|k: i64| #[trigger]
                post.stages[i].payloads.contains_key(k) implies post.stages[i].payloads[k].kind()
                == post.stages[i].kind by {
                if i == dest {
                    if ids.contains(k) {
                        assert(pre.stages[source].wf());
                        assert(pre.stages[source].payloads.contains_key(k));
                    } else {
                        assert(pre.stages[i].payloads.contains_key(k));
                    }
                } else {
                    assert(pre.stages[i].payloads.contains_key(k));
                }
            }
        }
        assert forall|i: int, b: i64|
            0 <= i < post.stages.len() && #[trigger] post.stages[i].payloads.contains_key(
                b,
            ) implies match post.stages[i].payloads[b] {
            PayloadView::Batch { frames, member_updates, spans } => spans.dom() == frames.dom(),
            _ => true,
        } by {
            if i == dest && ids.contains(b) {
            } else {
                assert(pre.stages[i].payloads.contains_key(b));
            }
        }
    }
    assert(post.locations_sound()) by {
        assert forall|k: i64| #[trigger] post.locations.contains_key(k) implies {
            &&& post.locations[k] < post.stages.len()
            &&& 0 < k <= post.id_counter
            &&& post.stages[post.locations[k] as int].payloads.contains_key(k)
                || post.owners.contains_key(k)
        } by {
            assert(pre.locations.contains_key(k));
            if ids.contains(k) {
                assert(post.stages[dest].payloads.contains_key(k));
            }
        }
    }
    assert(post.owners_sound()) by {
        assert forall|k: i64| #[trigger] post.owners.contains_key(k) implies {
            &&& post.locations.contains_key(k)
            &&& post.locations[k] < post.stages.len()
            &&& is_member(post.stages[post.locations[k] as int], post.owners[k], k)
        } by {
            assert(pre.owners.contains_key(k));
            let b = pre.owners[k];
            let at = pre.locations[k] as int;
            assert(is_member(pre.stages[at], b, k));
            if ids.contains(b) {
                assert(going.contains(k));
                assert(post.stages[dest].payloads.contains_key(b));
            } else {
                assert(!ids.contains(k));
                assert(!going.contains(k));
                assert(post.stages[at].payloads.contains_key(b));
                assert(post.stages[at].payloads[b] == pre.stages[at].payloads[b]);
            }
        }
    }
    assert(post.payloads_located()) by {
        assert forall|i: int, k: i64|
            0 <= i < post.stages.len() && #[trigger] post.stages[i].payloads.contains_key(
                k,
            ) implies post.locations.contains_key(k) && post.locations[k] == i by {
            if i == dest && ids.contains(k) {
                assert(going.contains(k));
            } else {
                assert(pre.stages[i].payloads.contains_key(k));
                assert(!ids.contains(k));
                if pre.owners.contains_key(k) {
                    assert(is_member(pre.stages[pre.locations[k] as int], pre.owners[k], k));
                }
                assert(!going.contains(k));
            }
        }
    }
    assert(post.members_located()) by {
        assert forall|i: int, b: i64, k: i64|
            0 <= i < post.stages.len() && #[trigger] is_member(post.stages[i], b, k) implies {
            &&& post.locations.contains_key(k)
            &&& post.locations[k] == i
            &&& post.owners.contains_key(k)
            &&& post.owners[k] == b
            &&& !post.stages[i].payloads.contains_key(k)
        } by {
            if i == dest && ids.contains(b) {
                assert(is_member(pre.stages[source], b, k));
                assert(going.contains(k));
            } else {
                assert(pre.stages[i].payloads.contains_key(b));
                assert(is_member(pre.stages[i], b, k));
                assert(!going.contains(k));
            }
        }
    }
    assert(post.roots_sound()) by {
        assert forall|k: i64| #[trigger]
            post.root_spans.contains_key(k) <==> post.locations.contains_key(k)
                && !post.is_batch_id(k) by {
            assert(pre.root_spans.contains_key(k) <==> pre.locations.contains_key(k)
                && !pre.is_batch_id(k));
            if pre.locations.contains_key(k) {
                let at = pre.locations[k] as int;
                assert(at < pre.stages.len());
                if ids.contains(k) {
                    assert(going.contains(k));
                    assert(post.stages[dest].payloads.contains_key(k));
                } else if going.contains(k) {
                    assert(!post.stages[dest].payloads.contains_key(k));
                } else {
                    if pre.stages[at].payloads.contains_key(k) {
                        assert(post.stages[at].payloads.contains_key(k));
                        assert(post.stages[at].payloads[k] == pre.stages[at].payloads[k]);
                    } else {
                        assert(!post.stages[at].payloads.contains_key(k));
                    }
                }
            }
        }
    }
}

impl Pipeline {
    /// Moves the payloads of the ids, as they are, to the stage of the name.
    /// The ids must be ids of payloads of one stage, and the stage of the
    /// name must come after it and be of its kind: else nothing changes.
    /// The span of each frame's stay in the source is ended, and one for
    /// its stay in the destination is opened under its root span.
    #[verifier::loop_isolation(false)]
    pub fn move_as_is(&mut self, dest_stage_name: &str, object_ids: Vec<i64>) -> (r: Result<
        (),
        PipelineError,
    >)
        requires
            old(self).wf(),
        ensures
            final(self).wf(),
            match old(self)@.move_refusal(dest_stage_name@, object_ids@) {
                Some(e) => r == Err::<(), PipelineError>(e) && final(self)@ == old(self)@,
                None => r is Ok && moved_as_is(
                    old(self)@,
                    final(self)@,
                    old(self)@.locations[object_ids@[0]] as int,
                    old(self)@.stage_index(dest_stage_name@),
                    object_ids@.to_set(),
                ),
            },
    {
        let ghost pre = self@;
        let source = match self.check_ids_in_the_same_stage(&object_ids) {
            Ok(at) => at,
            Err(e) => {
                return Err(e);
            },
        };
        assert(pre.locations.contains_key(object_ids@[0]));
        let dest = match self.find_destination(source, dest_stage_name) {
            Ok(at) => at,
            Err(e) => {
                return Err(e);
            },
        };
        assert(dest as int == pre.stage_index(dest_stage_name@));
        assert(source as int == pre.locations[object_ids@[0]] as int);
        assert(source < self.stages.len()) by {
            assert(pre.locations[object_ids@[0]] < pre.stages.len());
        }
        if self.stages[source].kind() != self.stages[dest].kind() {
            assert(pre.stages[source as int].kind != pre.stages[dest as int].kind);
            return Err(PipelineError::WrongStageKind);
        }
        let mut i: usize = 0;
        while i < object_ids.len()
            invariant
                i <= object_ids.len(),
                self@ == pre,
                forall|k: int|
                    0 <= k < i ==> pre.stages[source as int].payloads.contains_key(
                        #[trigger] object_ids@[k],
                    ),
            decreases object_ids.len() - i,
        {
            if !self.stages[source].contains(object_ids[i]) {
                return Err(PipelineError::NotFound);
            }
            i += 1;
        }
        let ghost ids = object_ids@.to_set();
        let ghost from = pre.stages[source as int].payloads;
        assert(pre.stages[source as int].wf());
        assert(pre.stages[dest as int].wf());
        let mut removed = self.stages[source].delete_many(&object_ids);
        let ghost orig = payload_pairs(removed@);
        let ghost n = orig.len() as int;
        proof {
            lemma_taken(object_ids@, from);
        }
        let ghost mid = *self;
        let span_name = stage_span_name(dest_stage_name);
        let mut payloads: Vec<(i64, PipelinePayload)> = Vec::new();
        let mut members: Vec<i64> = Vec::new();
        assert(members@.to_set() =~= Set::<i64>::empty());
        while removed.len() > 0
            invariant
                *self == mid,
                removed.len() <= n,
                payload_pairs(removed@) == orig.take(removed.len() as int),
                payloads.len() + removed.len() == n,
                forall|j: int|
                    0 <= j < payloads.len() ==> (#[trigger] payloads@[j]).0 == orig[n - 1 - j].0
                        && rotated(
                        pre.root_spans,
                        orig[n - 1 - j].0,
                        orig[n - 1 - j].1,
                        payloads@[j].1@,
                    ),
                forall|k: i64|
                    members@.to_set().contains(k) <==> exists|j: int|
                        0 <= j < payloads.len() && (#[trigger] payloads@[j]).1@.members().contains(
                            k,
                        ),
            decreases removed.len(),
        {
            let ghost m = removed.len() as int;
            let ghost before = payload_pairs(removed@);
            let ghost done = payloads@;
            let ghost members_before = members@;
            let ghost waiting = removed@;
            let (id, payload) = removed.pop().unwrap();
            assert(payload_pairs(removed@) =~= before.drop_last());
            assert(waiting[m - 1] == (id, payload));
            assert(before[m - 1] == (waiting[m - 1].0, waiting[m - 1].1@));
            assert(orig.take(m)[m - 1] == orig[m - 1]);
            assert((id, payload@) == orig[m - 1]);
            assert(payload_pairs(removed@) =~= orig.take(m - 1));
            proof {
                assert(object_ids@.contains(orig[m - 1].0));
                assert(from.contains_key(id) && payload@ == from[id]);
                assert(pre.stages[source as int].payloads.contains_key(id));
                assert(pre.locations.contains_key(id) && pre.locations[id] == source);
                assert(span_entries(self.root_spans) == pre.root_spans);
                match payload@ {
                    PayloadView::Frame { frame, updates, span } => {
                        assert(!pre.is_batch_id(id));
                        assert(pre.root_spans.contains_key(id));
                    },
                    PayloadView::Batch { frames, member_updates, spans } => {
                        assert(spans.dom() == frames.dom());
                        assert forall|k: i64| #[trigger] spans.contains_key(k) implies pre.root_spans.contains_key(
                            k,
                        ) by {
                            assert(frames.dom().contains(k));
                            assert(is_member(pre.stages[source as int], id, k));
                            assert(pre.locations.contains_key(k) && pre.locations[k] == source);
                            assert(!pre.is_batch_id(k));
                        }
                    },
                }
                assert(has_roots(pre.root_spans, id, payload@));
            }
            let fresh = rotate_payload(&self.root_spans, id, payload, span_name.as_str());
            match &fresh {
                PipelinePayload::Batch(batch, _, _) => {
                    let mut frames = batch.ids();
                    let ghost added = frames@;
                    members.append(&mut frames);
                    proof {
                        vstd::seq_lib::seq_to_set_distributes_over_add(members_before, added);
                    }
                },
                PipelinePayload::Frame(..) => {},
            }
            payloads.push((id, fresh));
            proof {
                assert forall|k: i64|
                    members@.to_set().contains(k) <==> exists|j: int|
                        0 <= j < payloads.len() && (#[trigger] payloads@[j]).1@.members().contains(
                            k,
                        ) by {
                    let last = payloads.len() - 1;
                    if members@.to_set().contains(k) {
                        if members_before.to_set().contains(k) {
                            let j = choose|j: int|
                                0 <= j < done.len() && (#[trigger] done[j]).1@.members().contains(
                                    k,
                                );
                            assert(payloads@[j] == done[j]);
                        } else {
                            assert(payloads@[last].1@.members().contains(k));
                        }
                    }
                    if exists|j: int|
                        0 <= j < payloads.len() && (#[trigger] payloads@[j]).1@.members().contains(
                            k,
                        ) {
                        let j = choose|j: int|
                            0 <= j < payloads.len() && (
                            #[trigger] payloads@[j]).1@.members().contains(k);
                        if j < last {
                            assert(done[j] == payloads@[j]);
                        }
                    }
                }
            }
        }
        let ghost pairs = payload_pairs(payloads@);
        proof {
            assert forall|j: int| 0 <= j < n implies (#[trigger] pairs[j]).0 == orig[n - 1 - j].0
                && rotated(
                pre.root_spans,
                orig[n - 1 - j].0,
                orig[n - 1 - j].1,
                pairs[j].1,
            ) by {
                assert(pairs[j] == (payloads@[j].0, payloads@[j].1@));
            }
            assert forall|j: int| 0 <= j < n implies ids.contains((#[trigger] pairs[j]).0)
                && from.contains_key(pairs[j].0) && orig[n - 1 - j].1 == from[pairs[j].0] by {
                assert(object_ids@.contains(orig[n - 1 - j].0));
            }
            assert(self@.stages[dest as int].list_refusal(pairs) is None) by {
                assert forall|j: int| 0 <= j < n implies (#[trigger] pairs[j]).1.kind()
                    == pre.stages[dest as int].kind && !pre.stages[dest as int].payloads.contains_key(
                    pairs[j].0,
                ) by {
                    assert(from.contains_key(pairs[j].0));
                    assert(pre.stages[source as int].payloads.contains_key(pairs[j].0));
                    assert(from[pairs[j].0].kind() == pre.stages[source as int].kind);
                    assert(rotated(
                        pre.root_spans,
                        orig[n - 1 - j].0,
                        orig[n - 1 - j].1,
                        pairs[j].1,
                    ));
                    assert(pre.locations[pairs[j].0] == source);
                }
                assert forall|a: int, b: int| 0 <= a < b < n implies (#[trigger] pairs[a]).0 != (
                #[trigger] pairs[b]).0 by {
                    assert(orig[n - 1 - b].0 != orig[n - 1 - a].0);
                }
            }
            assert forall|a: int, b: int| 0 <= a < b < n implies (#[trigger] pairs[a]).0 != (
            #[trigger] pairs[b]).0 by {
                assert(orig[n - 1 - b].0 != orig[n - 1 - a].0);
            }
            lemma_inserted_all(pre.stages[dest as int].payloads, pairs);
        }
        let added = self.stages[dest].add_payloads(payloads);
        assert(added is Ok);
        self.update_frame_locations(&members, dest);
        self.update_frame_locations(&object_ids, dest);
        proof {
            let post = self@;
            let into = inserted_all(pre.stages[dest as int].payloads, pairs);
            assert(post.stages[dest as int].payloads == into);
            assert(post.stages.len() == pre.stages.len());
            assert forall|k: i64| ids.contains(k) implies exists|j: int|
                0 <= j < n && (#[trigger] pairs[j]).0 == k by {
                let i0 = choose|i0: int| 0 <= i0 < object_ids@.len() && object_ids@[i0] == k;
                let j0 = choose|j0: int|
                    0 <= j0 < orig.len() && (#[trigger] orig[j0]).0 == object_ids@[i0];
                assert(pairs[n - 1 - j0].0 == k);
            }
            assert forall|k: i64| #[trigger]
                post.stages[dest as int].payloads.contains_key(k)
                    <==> pre.stages[dest as int].payloads.contains_key(k) || ids.contains(k) by {
                if ids.contains(k) {
                    let j = choose|j: int| 0 <= j < n && (#[trigger] pairs[j]).0 == k;
                }
            }
            assert forall|k: i64| #[trigger]
                pre.stages[dest as int].payloads.contains_key(k) implies post.stages[dest as int].payloads[k]
                == pre.stages[dest as int].payloads[k] by {
                assert forall|j: int| 0 <= j < n implies (#[trigger] pairs[j]).0 != k by {
                    assert(from.contains_key(pairs[j].0));
                }
            }
            assert forall|k: i64| #[trigger] ids.contains(k) implies rotated(
                pre.root_spans,
                k,
                from[k],
                post.stages[dest as int].payloads[k],
            ) by {
                let j = choose|j: int| 0 <= j < n && (#[trigger] pairs[j]).0 == k;
                assert(into[pairs[j].0] == pairs[j].1);
            }
            assert forall|k: i64|
                members@.to_set().contains(k) <==> pre.owners.contains_key(k) && ids.contains(
                    pre.owners[k],
                ) by {
                if members@.to_set().contains(k) {
                    let j = choose|j: int|
                        0 <= j < payloads.len() && (#[trigger] payloads@[j]).1@.members().contains(
                            k,
                        );
                    assert(pairs[j].1 == payloads@[j].1@);
                    assert(pairs[j].1.members() == from[pairs[j].0].members());
                    assert(is_member(pre.stages[source as int], pairs[j].0, k));
                }
                if pre.owners.contains_key(k) && ids.contains(pre.owners[k]) {
                    let b = pre.owners[k];
                    let j = choose|j: int| 0 <= j < n && (#[trigger] pairs[j]).0 == b;
                    assert(is_member(pre.stages[pre.locations[k] as int], b, k));
                    assert(pre.stages[pre.locations[k] as int].payloads.contains_key(b));
                    assert(from.contains_key(b));
                    assert(pre.locations[k] == source);
                    assert(pairs[j].1.members() == from[b].members());
                    assert(payloads@[j].1@.members().contains(k));
                }
            }
            assert(post.locations =~= relocated(pre.locations, pre.moving(ids), dest));
            assert(post.stages[source as int].payloads =~= from.remove_keys(ids));
            assert forall|i: int|
                0 <= i < pre.stages.len() && i != source && i != dest implies #[trigger] post.stages[i]
                == pre.stages[i] by {}
            lemma_moved_as_is_wf(pre, post, source as int, dest as int, ids);
        }
        Ok(())
    }
}

} // verus!
