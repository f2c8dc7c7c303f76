//! Deletion of payloads from the pipeline.

use vstd::prelude::*;
use crate::error::PipelineError;
use crate::pipeline::locations::{location_entries, location_map_remove};
use crate::pipeline::model::{is_member, PipelineView};
use crate::pipeline::payload::{PayloadView, PipelinePayload};
use crate::pipeline::stage::StageView;
use crate::pipeline::Pipeline;
use crate::id_sets::lemma_take_push_set;
use crate::telemetry::{span_entries, span_map_insert, span_map_remove, SpanMap, TelemetryContext};

verus! {

impl PipelineView {
    /// The ids that leave the book-keeping with the payload of the id: the
    /// id itself and, for a batch, the ids of its frames.
    pub open spec fn leaving(self, id: i64) -> Set<i64> {
        self.payload_of(id)->Some_0.members().insert(id)
    }

    /// The pipeline after the payload of the id was deleted.
    pub open spec fn deleted(self, id: i64) -> PipelineView {
        let at = self.locations[id] as int;
        PipelineView {
            stages: self.with_payloads(at, self.stages[at].payloads.remove(id)).stages,
            locations: self.locations.remove_keys(self.leaving(id)),
            root_spans: self.root_spans.remove_keys(self.leaving(id)),
            owners: self.owners.remove_keys(self.payload_of(id)->Some_0.members()),
            ..self
        }
    }

    /// The root spans that the deletion of the payload of the id hands
    /// back: of a frame its own, of a batch those of its frames.
    pub open spec fn released(self, id: i64) -> Map<i64, TelemetryContext> {
        self.root_spans.restrict(self.leaving(id))
    }
}

/// A consistent pipeline stays consistent when a payload is deleted.
pub proof fn lemma_deleted_wf(v: PipelineView, id: i64)
    requires
        v.wf(),
        v.payload_of(id) is Some,
    ensures
        v.deleted(id).wf(),
{
    let at = v.locations[id] as int;
    let gone = v.payload_of(id)->Some_0.members();
    let w = v.deleted(id);
    assert(w.stages.len() == v.stages.len());
    assert(v.stages[at].payloads.contains_key(id));
    assert forall|k: i64| gone.contains(k) implies is_member(v.stages[at], id, k) by {}
    assert forall|k: i64| gone.contains(k) implies v.locations.contains_key(k) && v.locations[k]
        == at && v.owners.contains_key(k) && v.owners[k] == id && k != id by {
        assert(is_member(v.stages[at], id, k));
    }
    assert(!v.owners.contains_key(id)) by {
        if v.owners.contains_key(id) {
            assert(is_member(v.stages[v.locations[id] as int], v.owners[id], id));
        }
    }
    assert(w.locations.dom().finite()) by {
        assert(w.locations.dom().subset_of(v.locations.dom()));
        vstd::set_lib::lemma_len_subset(w.locations.dom(), v.locations.dom());
    }
    assert(w.names_distinct()) by {
        assert forall|i: int, j: int| 0 <= i < j < w.stages.len() implies (
        #[trigger] w.stages[i]).name != (#[trigger] w.stages[j]).name by {
            assert(v.stages[i].name != v.stages[j].name);
        }
    }
    assert(w.stages_wf()) by {
        assert forall|i: int| 0 <= i < w.stages.len() implies (#[trigger] w.stages[i]).wf() by {
            assert(v.stages[i].wf());
            assert forall|k: i64| #[trigger]
                w.stages[i].payloads.contains_key(k) implies w.stages[i].payloads[k].kind()
                == w.stages[i].kind by {
                assert(v.stages[i].payloads.contains_key(k));
            }
        }
        assert forall|i: int, b: i64|
            0 <= i < w.stages.len() && #[trigger] w.stages[i].payloads.contains_key(
                b,
            ) implies match w.stages[i].payloads[b] {
            PayloadView::Batch { frames, member_updates, spans } => spans.dom() == frames.dom(),
            _ => true,
        } by {
            assert(v.stages[i].payloads.contains_key(b));
        }
    }
    assert(w.locations_sound()) by {
        assert forall|k: i64| #[trigger] w.locations.contains_key(k) implies {
            &&& w.locations[k] < w.stages.len()
            &&& 0 < k <= w.id_counter
            &&& w.stages[w.locations[k] as int].payloads.contains_key(k) || w.owners.contains_key(
                k,
            )
        } by {
            assert(v.locations.contains_key(k));
        }
    }
    assert(w.owners_sound()) by {
        assert forall|k: i64| #[trigger] w.owners.contains_key(k) implies {
            &&& w.locations.contains_key(k)
            &&& w.locations[k] < w.stages.len()
            &&& is_member(w.stages[w.locations[k] as int], w.owners[k], k)
        } by {
            assert(v.owners.contains_key(k));
            assert(is_member(v.stages[v.locations[k] as int], v.owners[k], k));
        }
    }
    assert(w.payloads_located()) by {
        assert forall|i: int, k: i64|
            0 <= i < w.stages.len() && #[trigger] w.stages[i].payloads.contains_key(
                k,
            ) implies w.locations.contains_key(k) && w.locations[k] == i by {
            assert(v.stages[i].payloads.contains_key(k));
        }
    }
    assert(w.members_located()) by {
        assert forall|i: int, b: i64, k: i64|
            0 <= i < w.stages.len() && #[trigger] is_member(w.stages[i], b, k) implies {
            &&& w.locations.contains_key(k)
            &&& w.locations[k] == i
            &&& w.owners.contains_key(k)
            &&& w.owners[k] == b
            &&& !w.stages[i].payloads.contains_key(k)
        } by {
            assert(v.stages[i].payloads.contains_key(b));
            assert(is_member(v.stages[i], b, k));
        }
    }
    assert(w.roots_sound()) by {
        assert forall|k: i64| #[trigger]
            w.root_spans.contains_key(k) <==> w.locations.contains_key(k) && !w.is_batch_id(
                k,
            ) by {
            assert(v.root_spans.contains_key(k) <==> v.locations.contains_key(k) && !v.is_batch_id(
                k,
            ));
            if v.locations.contains_key(k) {
                assert(v.locations[k] < v.stages.len());
            }
        }
    }
}

impl Pipeline {
    /// Deletes the payload of the id: it leaves its stage, its spans are
    /// ended, and it and, for a batch, its frames leave the book-keeping.
    /// The root spans of the frames that left come back, by frame id.
    pub fn delete(&mut self, id: i64) -> (r: Result<SpanMap, PipelineError>)
        requires
            old(self).wf(),
        ensures
            final(self).wf(),
            match r {
                Ok(roots) => {
                    &&& old(self)@.payload_of(id) is Some
                    &&& final(self)@ == old(self)@.deleted(id)
                    &&& span_entries(roots) == old(self)@.released(id)
                },
                Err(e) => e == PipelineError::NotFound && old(self)@.payload_of(id) is None
                    && final(self)@ == old(self)@,
            },
    {
        let ghost pre = self@;
        let at = match self.get_stage_for_id(id) {
            Ok(at) => at,
            Err(e) => {
                return Err(e);
            },
        };
        assert(pre.stages[at as int].wf());
        let removed = self.stages[at].delete(id);
        assert(self@.stages =~= pre.stages.update(
            at as int,
            StageView {
                payloads: pre.stages[at as int].payloads.remove(id),
                ..pre.stages[at as int]
            },
        ));
        let mut roots = SpanMap::new();
        match removed {
            None => {
                assert(pre.stages[at as int].payloads.remove(id) =~= pre.stages[at as int].payloads);
                assert(self@.stages =~= pre.stages);
                Err(PipelineError::NotFound)
            },
            Some(PipelinePayload::Frame(_, _, span)) => {
                span.end();
                assert(pre.root_spans.contains_key(id)) by {
                    assert(pre.locations.contains_key(id));
                }
                match span_map_remove(&mut self.root_spans, id) {
                    Some(root) => {
                        let _ = span_map_insert(&mut roots, id, root);
                    },
                    None => {},
                }
                let _ = location_map_remove(&mut self.frame_locations, id);
                proof {
                    let post = self@;
                    let target = pre.deleted(id);
                    assert(pre.leaving(id) =~= set![id]);
                    assert(post.stages =~= target.stages);
                    assert(post.locations =~= target.locations);
                    assert(post.root_spans =~= target.root_spans);
                    assert(post.owners =~= target.owners);
                    assert(span_entries(roots) =~= pre.released(id));
                    lemma_deleted_wf(pre, id);
                }
                Ok(roots)
            },
            Some(PipelinePayload::Batch(_, _, spans)) => {
                let ghost members = pre.payload_of(id)->Some_0.members();
                let ghost stays = span_entries(spans);
                assert(stays.dom() == members) by {
                    assert(pre.stages[at as int].payloads.contains_key(id));
                }
                let ids = spans.ids();
                let _ = location_map_remove(&mut self.frame_locations, id);
                let ghost locations = pre.locations.remove(id);
                let ghost mid = *self;
                let mut i: usize = 0;
                assert(ids@.take(0).to_set() =~= Set::<i64>::empty());
                assert(span_entries(self.root_spans) =~= pre.root_spans.remove_keys(
                    ids@.take(0).to_set(),
                ));
                assert(span_entries(roots) =~= pre.root_spans.restrict(ids@.take(0).to_set()));
                assert(location_entries(self.frame_locations)
                    =~= locations.remove_keys(ids@.take(0).to_set()));
                while i < ids.len()
                    invariant
                        i <= ids.len(),
                        self.stages == mid.stages,
                        self.id_counter == mid.id_counter,
                        self.frame_counter == mid.frame_counter,
                        self.sampling_period == mid.sampling_period,
                        self.root_span_name == mid.root_span_name,
                        self.owners == mid.owners,
                        ids@.to_set() == members,
                        stays == span_entries(spans),
                        stays.dom() == members,
                        span_entries(self.root_spans) == pre.root_spans.remove_keys(
                            ids@.take(i as int).to_set(),
                        ),
                        span_entries(roots) == pre.root_spans.restrict(
                            ids@.take(i as int).to_set(),
                        ),
                        location_entries(self.frame_locations)
                            == locations.remove_keys(ids@.take(i as int).to_set()),
                    decreases ids.len() - i,
                {
                    let member = ids[i];
                    proof {
                        lemma_take_push_set(ids@, i as int);
                    }
                    match spans.get(member) {
                        Some(span) => {
                            span.end();
                        },
                        None => {},
                    }
                    match span_map_remove(&mut self.root_spans, member) {
                        Some(root) => {
                            let _ = span_map_insert(&mut roots, member, root);
                        },
                        None => {},
                    }
                    let _ = location_map_remove(&mut self.frame_locations, member);
                    assert(span_entries(self.root_spans) =~= pre.root_spans.remove_keys(
                        ids@.take(i as int + 1).to_set(),
                    ));
                    assert(span_entries(roots) =~= pre.root_spans.restrict(
                        ids@.take(i as int + 1).to_set(),
                    ));
                    assert(location_entries(self.frame_locations)
                        =~= locations.remove_keys(ids@.take(i as int + 1).to_set()));
                    i += 1;
                }
                assert(ids@.take(i as int) =~= ids@);
                self.owners = Ghost(pre.owners.remove_keys(members));
                proof {
                    let post = self@;
                    let target = pre.deleted(id);
                    assert(!pre.root_spans.contains_key(id)) by {
                        assert(pre.is_batch_id(id));
                    }
                    assert(post.stages =~= target.stages);
                    assert(post.locations =~= target.locations);
                    assert(post.root_spans =~= target.root_spans);
                    assert(span_entries(roots) =~= pre.released(id));
                    lemma_deleted_wf(pre, id);
                }
                Ok(roots)
            },
        }
    }
}

} // verus!
