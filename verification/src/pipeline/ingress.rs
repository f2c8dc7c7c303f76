//! Admission of frames to the pipeline.

use vstd::prelude::*;
use vstd::string::StringExecFns;
use crate::error::PipelineError;
use crate::pipeline::locations::location_map_insert;
use crate::pipeline::model::{is_member, opened_under, PipelineView};
use crate::pipeline::payload::{PayloadView, PipelinePayload, PipelineStagePayloadType};
use crate::pipeline::stage::StageView;
use crate::pipeline::Pipeline;
use crate::primitives::frame::{VideoFrame, VideoFrameView};
use crate::primitives::frame_update::{update_views, VideoFrameUpdate};
use crate::telemetry::{is_sampled, span_map_insert, TelemetryContext};

verus! {

/// Whether `post` is `pre` after the frame was admitted to the stage at `at`
/// under the id: the two counters went up by one, the id is the new value
/// of the id counter, the frame stands in the stage without updates, with a
/// span that was opened under its root span, and it is located there.
pub open spec fn admitted(
    pre: PipelineView,
    post: PipelineView,
    at: int,
    id: i64,
    frame: VideoFrameView,
) -> bool {
    &&& id == pre.id_counter + 1
    &&& post.root_spans.contains_key(id)
    &&& post.stages[at].payloads.contains_key(id)
    &&& match post.stages[at].payloads[id] {
        PayloadView::Frame { frame: stored, updates, span } => stored == frame && updates
            == Seq::<crate::primitives::frame_update::VideoFrameUpdateView>::empty()
            && opened_under(post.root_spans[id], span),
        _ => false,
    }
    &&& post == (PipelineView {
        stages: pre.stages.update(
            at,
            StageView {
                payloads: pre.stages[at].payloads.insert(id, post.stages[at].payloads[id]),
                ..pre.stages[at]
            },
        ),
        locations: pre.locations.insert(id, at as usize),
        root_spans: pre.root_spans.insert(id, post.root_spans[id]),
        id_counter: id,
        frame_counter: (pre.frame_counter + 1) as i64,
        ..pre
    })
}

/// A consistent pipeline stays consistent when a frame is admitted.
pub proof fn lemma_admitted_wf(
    pre: PipelineView,
    post: PipelineView,
    at: int,
    id: i64,
    frame: VideoFrameView,
)
    requires
        pre.wf(),
        0 <= at < pre.stages.len(),
        pre.stages[at].kind == PipelineStagePayloadType::Frame,
        pre.id_counter < i64::MAX,
        pre.frame_counter < i64::MAX,
        admitted(pre, post, at, id, frame),
    ensures
        post.wf(),
        !pre.locations.contains_key(id),
        !pre.root_spans.contains_key(id),
{
    assert(!pre.locations.contains_key(id));
    assert(!pre.root_spans.contains_key(id));
    assert(post.stages.len() == pre.stages.len());
    assert forall|i: int, k: i64| 0 <= i < pre.stages.len() implies !is_member(
        pre.stages[i],
        k,
        id,
    ) by {}
    assert forall|i: int| 0 <= i < pre.stages.len() implies !pre.stages[i].payloads.contains_key(
        id,
    ) by {}
    assert(post.names_distinct()) by {
        assert forall|i: int, j: int| 0 <= i < j < post.stages.len() implies (
        #[trigger] post.stages[i]).name != (#[trigger] post.stages[j]).name by {
            assert(pre.stages[i].name != pre.stages[j].name);
        }
    }
    assert(post.stages_wf()) by {
        assert forall|i: int| 0 <= i < post.stages.len() implies (#[trigger] post.stages[i]).wf() by {
            assert(pre.stages[i].wf());
            assert forall|k: i64| #[trigger]
                post.stages[i].payloads.contains_key(k) implies post.stages[i].payloads[k].kind()
                == post.stages[i].kind by {
                if !(i == at && k == id) {
                    assert(pre.stages[i].payloads.contains_key(k));
                }
            }
        }
        assert forall|i: int, b: i64|
            0 <= i < post.stages.len() && #[trigger] post.stages[i].payloads.contains_key(
                b,
            ) implies match post.stages[i].payloads[b] {
            PayloadView::Batch { frames, member_updates, spans } => spans.dom() == frames.dom(),
            _ => true,
        } by {
            if !(i == at && b == id) {
                assert(pre.stages[i].payloads.contains_key(b));
            }
        }
    }
    assert(post.locations_sound()) by {
        assert forall|k: i64| #[trigger] post.locations.contains_key(k) implies {
            &&& post.locations[k] < post.stages.len()
            &&& 0 < k <= post.id_counter
            &&& post.stages[post.locations[k] as int].payloads.contains_key(k)
                || post.owners.contains_key(k)
        } by {
            if k != id {
                assert(pre.locations.contains_key(k));
            }
        }
    }
    assert(post.owners_sound()) by {
        assert forall|k: i64| #[trigger] post.owners.contains_key(k) implies {
            &&& post.locations.contains_key(k)
            &&& post.locations[k] < post.stages.len()
            &&& is_member(post.stages[post.locations[k] as int], post.owners[k], k)
        } by {
            assert(pre.owners.contains_key(k));
            assert(is_member(pre.stages[pre.locations[k] as int], pre.owners[k], k));
        }
    }
    assert(post.payloads_located()) by {
        assert forall|i: int, k: i64|
            0 <= i < post.stages.len() && #[trigger] post.stages[i].payloads.contains_key(
                k,
            ) implies post.locations.contains_key(k) && post.locations[k] == i by {
            if !(i == at && k == id) {
                assert(pre.stages[i].payloads.contains_key(k));
            }
        }
    }
    assert(post.members_located()) by {
        assert forall|i: int, b: i64, k: i64|
            0 <= i < post.stages.len() && #[trigger] is_member(post.stages[i], b, k) implies {
            &&& post.locations.contains_key(k)
            &&& post.locations[k] == i
            &&& post.owners.contains_key(k)
            &&& post.owners[k] == b
            &&& !post.stages[i].payloads.contains_key(k)
        } by {
            assert(is_member(pre.stages[i], b, k));
        }
    }
    assert(post.roots_sound()) by {
        assert forall|k: i64| #[trigger]
            post.root_spans.contains_key(k) <==> post.locations.contains_key(k)
                && !post.is_batch_id(k) by {
            if k != id {
                assert(pre.root_spans.contains_key(k) <==> pre.locations.contains_key(k)
                    && !pre.is_batch_id(k));
                if pre.locations.contains_key(k) {
                    assert(pre.locations[k] < pre.stages.len());
                }
            }
        }
    }
}

/// The name of the span of a stay in the stage that a frame was admitted
/// to: `add/` and the name of the stage.
pub fn ingress_span_name(stage_name: &str) -> (r: String)
    ensures
        r@ == "add/"@ + stage_name@,
{
    String::from_str("add/").concat(stage_name)
}

impl Pipeline {
    /// The span for the stay of the frame in a stage: a span of the given
    /// name under the root span of the frame.
    pub(crate) fn get_stage_span(&self, id: i64, span_name: &str) -> (r: TelemetryContext)
        ensures
            self@.root_spans.contains_key(id) ==> opened_under(self@.root_spans[id], r),
    {
        match self.root_spans.get(id) {
            Some(root) => root.nested(span_name),
            None => TelemetryContext::untraced(),
        }
    }

    /// A span of the given name under the parent. Under a parent that is
    /// not traced no span is opened: the result is the context that belongs
    /// to no trace. Under a traced parent the result holds the context that
    /// the tracer made for the new span.
    pub fn get_nested_span(span_name: &str, parent_ctx: &TelemetryContext) -> (r: TelemetryContext)
        ensures
            !parent_ctx.traced() ==> r.spec_context() is None && r.spec_trace_id() == 0,
            parent_ctx.traced() ==> r.spec_context() is Some,
    {
        parent_ctx.nested(span_name)
    }

    fn take_in(&mut self, at: usize, stage_name: &str, frame: VideoFrame, parent: &TelemetryContext) -> (id:
        i64)
        requires
            old(self).wf(),
            at < old(self)@.stages.len(),
            old(self)@.stages[at as int].kind == PipelineStagePayloadType::Frame,
            old(self)@.id_counter < i64::MAX,
            old(self)@.frame_counter < i64::MAX,
        ensures
            final(self).wf(),
            admitted(old(self)@, final(self)@, at as int, id, frame@),
            opened_under(*parent, final(self)@.root_spans[id]),
    {
        let ghost pre = self@;
        self.frame_counter = self.frame_counter + 1;
        self.id_counter = self.id_counter + 1;
        let id = self.id_counter;
        let root_name = self.get_root_span_name();
        let root = parent.nested(root_name.as_str());
        let span_name = ingress_span_name(stage_name);
        let span = root.nested(span_name.as_str());
        let _ = span_map_insert(&mut self.root_spans, id, root);
        let updates: Vec<VideoFrameUpdate> = Vec::new();
        assert(update_views(updates@) =~= Seq::empty());
        let payload = PipelinePayload::Frame(frame, updates, span);
        assert(pre.stages[at as int].wf());
        assert(!pre.locations.contains_key(id));
        assert(!pre.stages[at as int].payloads.contains_key(id));
        let added = self.stages[at].add_frame_payload(id, payload);
        assert(added is Ok);
        let _ = location_map_insert(&mut self.frame_locations, id, at);
        proof {
            let post = self@;
            assert(post.stages =~= pre.stages.update(
                at as int,
                StageView {
                    payloads: pre.stages[at as int].payloads.insert(
                        id,
                        post.stages[at as int].payloads[id],
                    ),
                    ..pre.stages[at as int]
                },
            ));
            lemma_admitted_wf(pre, post, at as int, id, frame@);
        }
        id
    }

    /// Admits the frame to the stage of the name, with a root span under the
    /// given parent, and returns the id that the frame got. The stage must
    /// exist and take independent frames.
    pub fn add_frame_with_telemetry(
        &mut self,
        stage_name: &str,
        frame: VideoFrame,
        parent_ctx: TelemetryContext,
    ) -> (r: Result<i64, PipelineError>)
        requires
            old(self).wf(),
        ensures
            final(self).wf(),
            match old(self)@.ingress_refusal(stage_name@) {
                Some(e) => r == Err::<i64, PipelineError>(e) && final(self)@ == old(self)@,
                None => r is Ok && admitted(
                    old(self)@,
                    final(self)@,
                    old(self)@.stage_index(stage_name@),
                    r->Ok_0,
                    frame@,
                ) && opened_under(parent_ctx, final(self)@.root_spans[r->Ok_0]),
            },
    {
        let at = match self.find_stage(stage_name, 0) {
            Some(at) => at,
            None => {
                return Err(PipelineError::NotFound);
            },
        };
        if self.stages[at].kind() == PipelineStagePayloadType::Batch {
            return Err(PipelineError::WrongStageKind);
        }
        if self.id_counter == i64::MAX || self.frame_counter == i64::MAX {
            return Err(PipelineError::CounterExhausted);
        }
        Ok(self.take_in(at, stage_name, frame, &parent_ctx))
    }

    /// Admits the frame to the stage of the name and returns the id that the
    /// frame got. With a sampling period `n` above zero, every `n`-th frame
    /// admitted gets a root span from the tracer; every other frame, and
    /// every frame under another period, gets the context that belongs to no
    /// trace for its root span, and with it for the span of its stay.
    pub fn add_frame(&mut self, stage_name: &str, frame: VideoFrame) -> (r: Result<
        i64,
        PipelineError,
    >)
        requires
            old(self).wf(),
        ensures
            final(self).wf(),
            match old(self)@.ingress_refusal(stage_name@) {
                Some(e) => r == Err::<i64, PipelineError>(e) && final(self)@ == old(self)@,
                None => r is Ok && admitted(
                    old(self)@,
                    final(self)@,
                    old(self)@.stage_index(stage_name@),
                    r->Ok_0,
                    frame@,
                ) && (!old(self)@.samples_next() ==> final(self)@.root_spans[r->Ok_0].spec_context() is None && final(self)@.root_spans[r->Ok_0].spec_trace_id() == 0),
            },
    {
        let at = match self.find_stage(stage_name, 0) {
            Some(at) => at,
            None => {
                return Err(PipelineError::NotFound);
            },
        };
        if self.stages[at].kind() == PipelineStagePayloadType::Batch {
            return Err(PipelineError::WrongStageKind);
        }
        if self.id_counter == i64::MAX || self.frame_counter == i64::MAX {
            return Err(PipelineError::CounterExhausted);
        }
        let next_frame = self.frame_counter + 1;
        let parent = if is_sampled(self.get_sampling_period(), next_frame) {
            let name = self.get_root_span_name();
            TelemetryContext::root(name.as_str())
        } else {
            TelemetryContext::untraced()
        };
        Ok(self.take_in(at, stage_name, frame, &parent))
    }
}

} // verus!
