//! The pipeline as a mathematical value, and what it means for it to be
//! consistent.

use vstd::prelude::*;
use crate::error::PipelineError;
use crate::pipeline::payload::{PayloadView, PipelineStagePayloadType};
use crate::pipeline::stage::StageView;
use crate::telemetry::TelemetryContext;

verus! {

/// What a pipeline holds.
pub struct PipelineView {
    /// The stages, in their order.
    pub stages: Seq<StageView>,
    /// For each live id, a payload's or a batch member's, the index of the
    /// stage where it is.
    pub locations: Map<i64, usize>,
    /// For each live frame, independent or in a batch, its root span.
    pub root_spans: Map<i64, TelemetryContext>,
    /// For each frame that is in a batch, the id of the batch.
    pub owners: Map<i64, i64>,
    /// The id that was given out last; zero before the first.
    pub id_counter: i64,
    /// The number of frames admitted so far.
    pub frame_counter: i64,
    /// The sampling period, once it was set.
    pub sampling_period: Option<i64>,
    /// The name of the root spans, once it was set.
    pub root_span_name: Option<Seq<char>>,
}

/// The smallest index at or after `from` of a stage with the name, or the
/// number of stages where there is none.
pub open spec fn stage_index_from(stages: Seq<StageView>, name: Seq<char>, from: int) -> int
    decreases stages.len() - from,
{
    if from < 0 || from >= stages.len() {
        stages.len() as int
    } else if stages[from].name == name {
        from
    } else {
        stage_index_from(stages, name, from + 1)
    }
}

/// `stage_index_from` stays within the list, hits the name where it is
/// inside, and passes over no stage of that name.
pub proof fn lemma_stage_index_from(stages: Seq<StageView>, name: Seq<char>, from: int)
    requires
        0 <= from <= stages.len(),
    ensures
        from <= stage_index_from(stages, name, from) <= stages.len(),
        stage_index_from(stages, name, from) < stages.len() ==> stages[stage_index_from(
            stages,
            name,
            from,
        )].name == name,
        forall|j: int|
            from <= j < stage_index_from(stages, name, from) ==> (#[trigger] stages[j]).name
                != name,
    decreases stages.len() - from,
{
    if from < stages.len() && stages[from].name != name {
        lemma_stage_index_from(stages, name, from + 1);
    }
}

/// Whether the payload under `batch` in the stage is a batch with the
/// frame `id` in it.
pub open spec fn is_member(stage: StageView, batch: i64, id: i64) -> bool {
    stage.payloads.contains_key(batch) && stage.payloads[batch].members().contains(id)
}

/// Whether the id is in the stage, as a payload's id or as the id of a frame
/// in one of its batches.
pub open spec fn holds(stage: StageView, id: i64) -> bool {
    stage.payloads.contains_key(id) || exists|batch: i64| is_member(stage, batch, id)
}

/// A span that was opened under the root. Under a root that is not traced
/// no span is opened: the span is the context that belongs to no trace.
/// Under a traced root the span holds the context that the tracer made for
/// it.
pub open spec fn opened_under(root: TelemetryContext, span: TelemetryContext) -> bool {
    &&& !root.traced() ==> span.spec_context() is None && span.spec_trace_id() == 0
    &&& root.traced() ==> span.spec_context() is Some
}

impl PipelineView {
    /// The index of the stage with the name, or the number of stages where
    /// there is none.
    pub open spec fn stage_index(self, name: Seq<char>) -> int {
        stage_index_from(self.stages, name, 0)
    }

    /// The sampling period that is in force.
    pub open spec fn period(self) -> i64 {
        match self.sampling_period {
            Some(p) => p,
            None => 0,
        }
    }

    /// Whether the frame that is admitted next is one of those that get a
    /// trace: the period is above zero and divides the number of the frame,
    /// counted from one.
    pub open spec fn samples_next(self) -> bool {
        self.period() > 0 && (self.frame_counter + 1) % (self.period() as int) == 0
    }

    /// No two stages share a name.
    pub open spec fn names_distinct(self) -> bool {
        forall|i: int, j: int|
            0 <= i < j < self.stages.len() ==> (#[trigger] self.stages[i]).name
                != (#[trigger] self.stages[j]).name
    }

    /// Every stage holds finitely many payloads of its kind, and every batch
    /// has a span for each of its frames and for nothing else.
    pub open spec fn stages_wf(self) -> bool {
        &&& forall|i: int| 0 <= i < self.stages.len() ==> (#[trigger] self.stages[i]).wf()
        &&& forall|i: int, b: i64|
            0 <= i < self.stages.len() && #[trigger] self.stages[i].payloads.contains_key(b)
                ==> match self.stages[i].payloads[b] {
                PayloadView::Batch { frames, member_updates, spans } => spans.dom() == frames.dom(),
                _ => true,
            }
    }

    /// Every located id is in the stage that its location names: as a
    /// payload's id, or as a frame of the batch that owns it.
    pub open spec fn locations_sound(self) -> bool {
        forall|id: i64| #[trigger]
            self.locations.contains_key(id) ==> {
                &&& self.locations[id] < self.stages.len()
                &&& 0 < id <= self.id_counter
                &&& self.stages[self.locations[id] as int].payloads.contains_key(id)
                    || self.owners.contains_key(id)
            }
    }

    /// Every owned frame is located, and is a frame of its owner in the stage
    /// where it is located.
    pub open spec fn owners_sound(self) -> bool {
        forall|id: i64| #[trigger]
            self.owners.contains_key(id) ==> {
                &&& self.locations.contains_key(id)
                &&& self.locations[id] < self.stages.len()
                &&& is_member(self.stages[self.locations[id] as int], self.owners[id], id)
            }
    }

    /// Every payload of a stage is located in that stage.
    pub open spec fn payloads_located(self) -> bool {
        forall|i: int, id: i64|
            0 <= i < self.stages.len() && #[trigger] self.stages[i].payloads.contains_key(id)
                ==> self.locations.contains_key(id) && self.locations[id] == i
    }

    /// Every frame of a batch is located in the stage of the batch, is owned
    /// by that batch, and is not itself a payload of that stage.
    pub open spec fn members_located(self) -> bool {
        forall|i: int, b: i64, id: i64|
            0 <= i < self.stages.len() && #[trigger] is_member(self.stages[i], b, id) ==> {
                &&& self.locations.contains_key(id)
                &&& self.locations[id] == i
                &&& self.owners.contains_key(id)
                &&& self.owners[id] == b
                &&& !self.stages[i].payloads.contains_key(id)
            }
    }

    /// Whether the located id is the id of a batch.
    pub open spec fn is_batch_id(self, id: i64) -> bool {
        self.stages[self.locations[id] as int].payloads.contains_key(id)
            && self.stages[self.locations[id] as int].payloads[id] is Batch
    }

    /// The ids with a root span are the located ids that are not the id of a
    /// batch: the frames.
    pub open spec fn roots_sound(self) -> bool {
        forall|id: i64| #[trigger]
            self.root_spans.contains_key(id) <==> self.locations.contains_key(id)
                && !self.is_batch_id(id)
    }

    /// The pipeline is consistent. Its stages can be counted in a `usize`,
    /// so that a stage index is the same number as a location.
    pub open spec fn wf(self) -> bool {
        &&& self.stages.len() <= usize::MAX
        &&& self.locations.dom().finite()
        &&& 0 <= self.id_counter
        &&& 0 <= self.frame_counter
        &&& self.names_distinct()
        &&& self.stages_wf()
        &&& self.locations_sound()
        &&& self.owners_sound()
        &&& self.payloads_located()
        &&& self.members_located()
        &&& self.roots_sound()
    }

    /// Why a frame is not admitted to the stage of the name, where it is not:
    /// there is no such stage, it takes batches, or a counter is at its end.
    pub open spec fn ingress_refusal(self, name: Seq<char>) -> Option<PipelineError> {
        let at = self.stage_index(name);
        if at >= self.stages.len() {
            Some(PipelineError::NotFound)
        } else if self.stages[at].kind == PipelineStagePayloadType::Batch {
            Some(PipelineError::WrongStageKind)
        } else if self.id_counter == i64::MAX || self.frame_counter == i64::MAX {
            Some(PipelineError::CounterExhausted)
        } else {
            None
        }
    }

    /// The payload under the id in the stage where the id is located, if
    /// the id is a payload's.
    pub open spec fn payload_of(self, id: i64) -> Option<PayloadView> {
        if self.locations.contains_key(id) && self.locations[id] < self.stages.len()
            && self.stages[self.locations[id] as int].payloads.contains_key(id) {
            Some(self.stages[self.locations[id] as int].payloads[id])
        } else {
            None
        }
    }

    /// The pipeline with another payload under the located id.
    pub open spec fn with_payload(self, id: i64, payload: PayloadView) -> PipelineView {
        self.with_payloads(
            self.locations[id] as int,
            self.stages[self.locations[id] as int].payloads.insert(id, payload),
        )
    }

    /// The pipeline with other payloads in the stage at `at`.
    pub open spec fn with_payloads(self, at: int, payloads: Map<i64, PayloadView>) -> PipelineView {
        PipelineView {
            stages: self.stages.update(at, StageView { payloads, ..self.stages[at] }),
            ..self
        }
    }
}

/// Whether a payload can take the place of another without a change to the
/// book-keeping: it is of the same kind, has the same members, and, where it
/// is a batch, a span for each member and for nothing else.
pub open spec fn same_shape(before: PayloadView, after: PayloadView) -> bool {
    &&& after.kind() == before.kind()
    &&& after.members() == before.members()
    &&& match after {
        PayloadView::Batch { frames, member_updates, spans } => spans.dom() == frames.dom(),
        _ => true,
    }
}

/// A consistent pipeline stays consistent when a payload is replaced by one
/// of the same shape.
pub proof fn lemma_replace_payload(v: PipelineView, id: i64, payload: PayloadView)
    requires
        v.wf(),
        v.payload_of(id) is Some,
        same_shape(v.payload_of(id)->Some_0, payload),
    ensures
        v.with_payload(id, payload).wf(),
{
    let at = v.locations[id] as int;
    let w = v.with_payload(id, payload);
    assert(w.stages.len() == v.stages.len());
    assert forall|i: int| 0 <= i < w.stages.len() implies (#[trigger] w.stages[i]).name
        == v.stages[i].name && w.stages[i].kind == v.stages[i].kind
        && w.stages[i].payloads.dom() =~= v.stages[i].payloads.dom() by {}
    assert forall|i: int, b: i64|
        0 <= i < w.stages.len() && w.stages[i].payloads.contains_key(b) implies (
        #[trigger] w.stages[i].payloads[b]).kind() == v.stages[i].payloads[b].kind()
        && w.stages[i].payloads[b].members() == v.stages[i].payloads[b].members() by {}
    assert(w.names_distinct()) by {
        assert forall|i: int, j: int| 0 <= i < j < w.stages.len() implies (
        #[trigger] w.stages[i]).name != (#[trigger] w.stages[j]).name by {
            assert(v.stages[i].name != v.stages[j].name);
        }
    }
    assert(w.stages_wf()) by {
        assert forall|i: int| 0 <= i < w.stages.len() implies (#[trigger] w.stages[i]).wf() by {
            assert(v.stages[i].wf());
            assert forall|k: i64| #[trigger]
                w.stages[i].payloads.contains_key(k) implies w.stages[i].payloads[k].kind()
                == w.stages[i].kind by {
                assert(v.stages[i].payloads.contains_key(k));
            }
        }
        assert forall|i: int, b: i64|
            0 <= i < w.stages.len() && #[trigger] w.stages[i].payloads.contains_key(
                b,
            ) implies match w.stages[i].payloads[b] {
            PayloadView::Batch { frames, member_updates, spans } => spans.dom() == frames.dom(),
            _ => true,
        } by {
            assert(v.stages[i].payloads.contains_key(b));
        }
    }
    assert(w.locations_sound()) by {
        assert forall|k: i64| #[trigger] w.locations.contains_key(k) implies {
            &&& w.locations[k] < w.stages.len()
            &&& 0 < k <= w.id_counter
            &&& w.stages[w.locations[k] as int].payloads.contains_key(k) || w.owners.contains_key(
                k,
            )
        } by {
            assert(v.locations.contains_key(k));
        }
    }
    assert(w.owners_sound()) by {
        assert forall|k: i64| #[trigger] w.owners.contains_key(k) implies {
            &&& w.locations.contains_key(k)
            &&& w.locations[k] < w.stages.len()
            &&& is_member(w.stages[w.locations[k] as int], w.owners[k], k)
        } by {
            assert(v.owners.contains_key(k));
            assert(is_member(v.stages[v.locations[k] as int], v.owners[k], k));
        }
    }
    assert(w.payloads_located()) by {
        assert forall|i: int, k: i64|
            0 <= i < w.stages.len() && #[trigger] w.stages[i].payloads.contains_key(
                k,
            ) implies w.locations.contains_key(k) && w.locations[k] == i by {
            assert(v.stages[i].payloads.contains_key(k));
        }
    }
    assert(w.members_located()) by {
        assert forall|i: int, b: i64, k: i64|
            0 <= i < w.stages.len() && #[trigger] is_member(w.stages[i], b, k) implies {
            &&& w.locations.contains_key(k)
            &&& w.locations[k] == i
            &&& w.owners.contains_key(k)
            &&& w.owners[k] == b
            &&& !w.stages[i].payloads.contains_key(k)
        } by {
            assert(v.stages[i].payloads.contains_key(b));
            assert(is_member(v.stages[i], b, k));
        }
    }
    assert(w.roots_sound()) by {
        assert forall|k: i64| #[trigger]
            w.root_spans.contains_key(k) <==> w.locations.contains_key(k) && !w.is_batch_id(
                k,
            ) by {
            assert(v.root_spans.contains_key(k) <==> v.locations.contains_key(k) && !v.is_batch_id(
                k,
            ));
            if v.locations.contains_key(k) {
                assert(v.locations[k] < v.stages.len());
                if v.stages[v.locations[k] as int].payloads.contains_key(k) {
                    assert(w.stages[v.locations[k] as int].payloads.contains_key(k));
                }
            }
        }
    }
}

} // verus!
