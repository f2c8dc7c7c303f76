use vstd::prelude::*;
use crate::primitives::frame::{VideoFrame, VideoFrameView};
use crate::primitives::frame_batch::VideoFrameBatch;
use crate::primitives::frame_update::{
    apply_all, update_views, VideoFrameUpdate, VideoFrameUpdateView,
};
use crate::telemetry::{span_entries, SpanMap, TelemetryContext};

verus! {

/// What the payloads of a stage are: independent frames or batches.
#[derive(Clone, Copy, Debug, PartialEq, Eq, Structural)]
pub enum PipelineStagePayloadType {
    Frame,
    Batch,
}

/// What a stage stores under one id.
pub enum PipelinePayload {
    /// A frame, the updates recorded for it, and the span of its stay in the
    /// stage.
    Frame(VideoFrame, Vec<VideoFrameUpdate>, TelemetryContext),
    /// A batch, the updates recorded for its members, each with the id of
    /// its member, and the span of each member's stay in the stage.
    Batch(VideoFrameBatch, Vec<(i64, VideoFrameUpdate)>, SpanMap),
}

/// What a [`PipelinePayload`] holds.
pub enum PayloadView {
    Frame { frame: VideoFrameView, updates: Seq<VideoFrameUpdateView>, span: TelemetryContext },
    Batch {
        frames: Map<i64, VideoFrameView>,
        member_updates: Seq<(i64, VideoFrameUpdateView)>,
        spans: Map<i64, TelemetryContext>,
    },
}

/// The views of a sequence of updates for batch members, one for one.
pub open spec fn member_update_views(updates: Seq<(i64, VideoFrameUpdate)>) -> Seq<
    (i64, VideoFrameUpdateView),
> {
    updates.map_values(|u: (i64, VideoFrameUpdate)| (u.0, u.1@))
}

/// The frames of a batch after each update of the list was applied to the
/// member that it names, first to last. An update that names no member of
/// the batch changes nothing.
pub open spec fn apply_member_updates(
    frames: Map<i64, VideoFrameView>,
    updates: Seq<(i64, VideoFrameUpdateView)>,
) -> Map<i64, VideoFrameView>
    decreases updates.len(),
{
    if updates.len() == 0 {
        frames
    } else {
        let before = apply_member_updates(frames, updates.drop_last());
        let member = updates.last().0;
        if before.contains_key(member) {
            before.insert(member, updates.last().1.applied_to(before[member]))
        } else {
            before
        }
    }
}

/// Applying updates changes frames, not which frames there are.
pub proof fn lemma_apply_member_updates_dom(
    frames: Map<i64, VideoFrameView>,
    updates: Seq<(i64, VideoFrameUpdateView)>,
)
    ensures
        apply_member_updates(frames, updates).dom() == frames.dom(),
    decreases updates.len(),
{
    if updates.len() > 0 {
        lemma_apply_member_updates_dom(frames, updates.drop_last());
        let before = apply_member_updates(frames, updates.drop_last());
        let member = updates.last().0;
        if before.contains_key(member) {
            assert(before.insert(member, updates.last().1.applied_to(before[member])).dom()
                =~= before.dom());
        }
    }
}

impl View for PipelinePayload {
    type V = PayloadView;

    open spec fn view(&self) -> PayloadView {
        match self {
            PipelinePayload::Frame(frame, updates, span) => PayloadView::Frame {
                frame: frame@,
                updates: update_views(updates@),
                span: *span,
            },
            PipelinePayload::Batch(batch, updates, spans) => PayloadView::Batch {
                frames: batch@,
                member_updates: member_update_views(updates@),
                spans: span_entries(*spans),
            },
        }
    }
}

impl PayloadView {
    /// The kind of stage that stores such a payload.
    pub open spec fn kind(self) -> PipelineStagePayloadType {
        match self {
            PayloadView::Frame { .. } => PipelineStagePayloadType::Frame,
            PayloadView::Batch { .. } => PipelineStagePayloadType::Batch,
        }
    }

    /// The ids of the frames of a batch; of a frame payload, none.
    pub open spec fn members(self) -> Set<i64> {
        match self {
            PayloadView::Frame { .. } => Set::empty(),
            PayloadView::Batch { frames, .. } => frames.dom(),
        }
    }

    /// The payload after its recorded updates were applied. The updates
    /// stay recorded.
    pub open spec fn updated(self) -> PayloadView {
        match self {
            PayloadView::Frame { frame, updates, span } => PayloadView::Frame {
                frame: apply_all(frame, updates),
                updates,
                span,
            },
            PayloadView::Batch { frames, member_updates, spans } => PayloadView::Batch {
                frames: apply_member_updates(frames, member_updates),
                member_updates,
                spans,
            },
        }
    }

    /// The payload without its recorded updates.
    pub open spec fn cleared(self) -> PayloadView {
        match self {
            PayloadView::Frame { frame, updates, span } => PayloadView::Frame {
                frame,
                updates: Seq::empty(),
                span,
            },
            PayloadView::Batch { frames, member_updates, spans } => PayloadView::Batch {
                frames,
                member_updates: Seq::empty(),
                spans,
            },
        }
    }
}

impl PipelinePayload {
    /// The kind of stage that stores the payload.
    pub fn kind(&self) -> (r: PipelineStagePayloadType)
        ensures
            r == self@.kind(),
    {
        match self {
            PipelinePayload::Frame(..) => PipelineStagePayloadType::Frame,
            PipelinePayload::Batch(..) => PipelineStagePayloadType::Batch,
        }
    }
}

} // verus!
