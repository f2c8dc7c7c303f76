//! The stage scheduler: payloads, stages, and the pipeline that moves
//! payloads from stage to stage.

pub mod ingress;
pub mod laws;
pub mod locations;
pub mod model;
pub mod move_as_is;
pub mod movement;
pub mod pack;
pub mod payload;
pub mod payloads;
pub mod removal;
pub mod stage;
pub mod unpack;

use vstd::prelude::*;
use crate::error::PipelineError;
use crate::pipeline::locations::{
    location_entries, location_map_get, location_map_len, location_map_new, LocationMap,
};
use crate::pipeline::model::{
    lemma_replace_payload, lemma_stage_index_from, stage_index_from, PipelineView,
};
use crate::pipeline::payload::lemma_apply_member_updates_dom;
pub use crate::pipeline::payload::{PayloadView, PipelinePayload, PipelineStagePayloadType};
use crate::match_query::MatchQuery;
use crate::pipeline::stage::{found_views, objects_found, PipelineStage, StageView};
use crate::primitives::object::VideoObject;
use crate::primitives::frame::VideoFrame;
use crate::primitives::frame_batch::VideoFrameBatch;
use crate::primitives::frame_update::VideoFrameUpdate;
use crate::telemetry::{span_entries, SpanMap, TelemetryContext};

verus! {

/// The name of the root spans of a pipeline whose name was never set.
pub const DEFAULT_ROOT_SPAN_NAME: &'static str = "video_pipeline";

/// A pipeline: its stages in their order, and the book-keeping that finds
/// every live frame and batch.
pub struct Pipeline {
    id_counter: i64,
    frame_counter: i64,
    root_spans: SpanMap,
    stages: Vec<PipelineStage>,
    frame_locations: LocationMap,
    sampling_period: Option<i64>,
    root_span_name: Option<String>,
    owners: Ghost<Map<i64, i64>>,
}

/// The views of the stages, one for one.
pub open spec fn stage_views(stages: Seq<PipelineStage>) -> Seq<StageView> {
    stages.map_values(|s: PipelineStage| s@)
}

/// The stages that `Pipeline::new` makes of a list of names and kinds.
pub open spec fn empty_stages(list: Seq<(String, PipelineStagePayloadType)>) -> Seq<StageView> {
    list.map_values(
        |e: (String, PipelineStagePayloadType)|
            StageView { name: e.0@, kind: e.1, payloads: Map::empty() },
    )
}

/// Whether a name comes twice in the list.
pub open spec fn has_duplicate_name(list: Seq<(String, PipelineStagePayloadType)>) -> bool {
    exists|i: int, j: int|
        0 <= i < j < list.len() && (#[trigger] list[i]).0@ == (#[trigger] list[j]).0@
}

impl View for Pipeline {
    type V = PipelineView;

    closed spec fn view(&self) -> PipelineView {
        PipelineView {
            stages: stage_views(self.stages@),
            locations: location_entries(self.frame_locations),
            root_spans: span_entries(self.root_spans),
            owners: self.owners@,
            id_counter: self.id_counter,
            frame_counter: self.frame_counter,
            sampling_period: self.sampling_period,
            root_span_name: match self.root_span_name {
                Some(name) => Some(name@),
                None => None,
            },
        }
    }
}

impl Pipeline {
    /// The pipeline is consistent: see [`PipelineView::wf`].
    pub open spec fn wf(&self) -> bool {
        self@.wf()
    }

    /// A pipeline with the given stages, all empty, in the given order.
    /// Refused where two stages share a name.
    pub fn new(stages: Vec<(String, PipelineStagePayloadType)>) -> (r: Result<Self, PipelineError>)
        ensures
            match r {
                Ok(p) => {
                    &&& !has_duplicate_name(stages@)
                    &&& p.wf()
                    &&& p@ == (PipelineView {
                        stages: empty_stages(stages@),
                        locations: Map::empty(),
                        root_spans: Map::empty(),
                        owners: Map::empty(),
                        id_counter: 0,
                        frame_counter: 0,
                        sampling_period: None,
                        root_span_name: None,
                    })
                },
                Err(e) => e == PipelineError::DuplicateStage && has_duplicate_name(stages@),
            },
    {
        let mut pipeline = Pipeline {
            id_counter: 0,
            frame_counter: 0,
            root_spans: SpanMap::new(),
            stages: Vec::new(),
            frame_locations: location_map_new(),
            sampling_period: None,
            root_span_name: None,
            owners: Ghost(Map::empty()),
        };
        let mut i: usize = 0;
        while i < stages.len()
            invariant
                i <= stages.len(),
                pipeline.stages.len() == i,
                stage_views(pipeline.stages@) == empty_stages(stages@.take(i as int)),
                forall|a: int, b: int|
                    0 <= a < b < i ==> (#[trigger] stages@[a]).0@ != (#[trigger] stages@[b]).0@,
                pipeline.id_counter == 0,
                pipeline.frame_counter == 0,
                location_entries(pipeline.frame_locations) == Map::<i64, usize>::empty(),
                span_entries(pipeline.root_spans) == Map::<i64, TelemetryContext>::empty(),
                pipeline.owners@ == Map::<i64, i64>::empty(),
                pipeline.sampling_period is None,
                pipeline.root_span_name is None,
            decreases stages.len() - i,
        {
            let name = stages[i].0.clone();
            let kind = stages[i].1;
            let ghost views = stage_views(pipeline.stages@);
            match pipeline.find_stage(name.as_str(), 0) {
                Some(at) => {
                    proof {
                        lemma_stage_index_from(views, name@, 0);
                        assert(views[at as int].name == stages@.take(i as int)[at as int].0@);
                        assert(stages@[at as int].0@ == stages@[i as int].0@);
                    }
                    return Err(PipelineError::DuplicateStage);
                },
                None => {
                    proof {
                        lemma_stage_index_from(views, name@, 0);
                        assert forall|a: int| 0 <= a < i implies (#[trigger] stages@[a]).0@
                            != stages@[i as int].0@ by {
                            assert(views[a].name == stages@.take(i as int)[a].0@);
                        }
                    }
                },
            }
            pipeline.stages.push(PipelineStage::new(name, kind));
            proof {
                let now = stage_views(pipeline.stages@);
                let target = empty_stages(stages@.take(i as int + 1));
                assert forall|k: int| 0 <= k < i + 1 implies now[k] == target[k] by {
                    if k < i {
                        assert(now[k] == views[k]);
                        assert(views[k] == empty_stages(stages@.take(i as int))[k]);
                        assert(stages@.take(i as int)[k] == stages@.take(i as int + 1)[k]);
                    } else {
                        assert(stages@.take(i as int + 1)[k] == stages@[i as int]);
                    }
                }
                assert(now =~= target);
            }
            i += 1;
        }
        assert(stages@.take(i as int) =~= stages@);
        proof {
            let v = pipeline@;
            assert(v.locations =~= Map::empty());
            assert(v.stages_wf());
            assert(v.names_distinct());
        }
        Ok(pipeline)
    }

    /// The number of located ids.
    pub fn get_id_locations_len(&self) -> (r: usize)
        requires
            self.wf(),
        ensures
            r == self@.locations.len(),
    {
        location_map_len(&self.frame_locations)
    }

    /// Sets the name of the root spans. It can be set once.
    pub fn set_root_span_name(&mut self, name: String) -> (r: Result<(), PipelineError>)
        ensures
            match r {
                Ok(_) => old(self)@.root_span_name is None && final(self)@ == (PipelineView {
                    root_span_name: Some(name@),
                    ..old(self)@
                }),
                Err(e) => e == PipelineError::AlreadySet && old(self)@.root_span_name is Some
                    && final(self)@ == old(self)@,
            },
    {
        if self.root_span_name.is_some() {
            return Err(PipelineError::AlreadySet);
        }
        self.root_span_name = Some(name);
        Ok(())
    }

    /// Sets the sampling period. It can be set once.
    pub fn set_sampling_period(&mut self, period: i64) -> (r: Result<(), PipelineError>)
        ensures
            match r {
                Ok(_) => old(self)@.sampling_period is None && final(self)@ == (PipelineView {
                    sampling_period: Some(period),
                    ..old(self)@
                }),
                Err(e) => e == PipelineError::AlreadySet && old(self)@.sampling_period is Some
                    && final(self)@ == old(self)@,
            },
    {
        if self.sampling_period.is_some() {
            return Err(PipelineError::AlreadySet);
        }
        self.sampling_period = Some(period);
        Ok(())
    }

    /// The sampling period: zero while none was set.
    pub fn get_sampling_period(&self) -> (r: i64)
        ensures
            r == self@.period(),
    {
        match self.sampling_period {
            Some(p) => p,
            None => 0,
        }
    }

    /// The name of the root spans: the default while none was set.
    pub fn get_root_span_name(&self) -> (r: String)
        ensures
            r@ == match self@.root_span_name {
                Some(name) => name,
                None => DEFAULT_ROOT_SPAN_NAME@,
            },
    {
        match &self.root_span_name {
            Some(name) => name.clone(),
            None => DEFAULT_ROOT_SPAN_NAME.to_string(),
        }
    }

    /// The id that was given out last.
    pub fn get_id_counter(&self) -> (r: i64)
        ensures
            r == self@.id_counter,
    {
        self.id_counter
    }

    /// The number of stages.
    pub fn stage_count(&self) -> (r: usize)
        ensures
            r == self@.stages.len(),
    {
        self.stages.len()
    }

    /// The index of the first stage of the name at or after `start_from`.
    pub fn find_stage(&self, stage_name: &str, start_from: usize) -> (r: Option<usize>)
        ensures
            match r {
                Some(at) => at < self@.stages.len() && at == stage_index_from(
                    self@.stages,
                    stage_name@,
                    start_from as int,
                ),
                None => stage_index_from(self@.stages, stage_name@, start_from as int)
                    >= self@.stages.len(),
            },
    {
        let mut i: usize = start_from;
        while i < self.stages.len()
            invariant
                start_from <= i,
                stage_index_from(self@.stages, stage_name@, start_from as int) == stage_index_from(
                    self@.stages,
                    stage_name@,
                    i as int,
                ),
            decreases self.stages.len() - i,
        {
            if self.stages[i].is_named(stage_name) {
                return Some(i);
            }
            i += 1;
        }
        None
    }

    /// The kind of the first stage of the name at or after `start_from`.
    pub fn find_stage_type(&self, name: &str, start_from: usize) -> (r: Option<
        PipelineStagePayloadType,
    >)
        ensures
            r == ({
                let at = stage_index_from(self@.stages, name@, start_from as int);
                if at < self@.stages.len() {
                    Some(self@.stages[at].kind)
                } else {
                    None
                }
            }),
    {
        match self.find_stage(name, start_from) {
            Some(at) => Some(self.stages[at].kind()),
            None => None,
        }
    }

    /// The kind of the stage of the name.
    pub fn get_stage_type(&self, name: &str) -> (r: Option<PipelineStagePayloadType>)
        ensures
            r == (if self@.stage_index(name@) < self@.stages.len() {
                Some(self@.stages[self@.stage_index(name@)].kind)
            } else {
                None
            }),
    {
        self.find_stage_type(name, 0)
    }

    /// The number of payloads in the stage of the name.
    pub fn get_stage_queue_len(&self, stage: &str) -> (r: Result<usize, PipelineError>)
        requires
            self.wf(),
        ensures
            match r {
                Ok(n) => self@.stage_index(stage@) < self@.stages.len() && n
                    == self@.stages[self@.stage_index(stage@)].payloads.len(),
                Err(e) => e == PipelineError::NotFound && self@.stage_index(stage@)
                    >= self@.stages.len(),
            },
    {
        match self.find_stage(stage, 0) {
            Some(at) => {
                assert(self@.stages[at as int].wf());
                Ok(self.stages[at].len())
            },
            None => Err(PipelineError::NotFound),
        }
    }

    /// The index of the stage where the id is.
    pub fn get_stage_for_id(&self, id: i64) -> (r: Result<usize, PipelineError>)
        ensures
            match r {
                Ok(at) => self@.locations.contains_key(id) && at == self@.locations[id],
                Err(e) => e == PipelineError::NotFound && !self@.locations.contains_key(id),
            },
    {
        match location_map_get(&self.frame_locations, id) {
            Some(at) => Ok(at),
            None => Err(PipelineError::NotFound),
        }
    }

    /// Records an update for the independent frame of the id.
    pub fn add_frame_update(&mut self, frame_id: i64, update: VideoFrameUpdate) -> (r: Result<
        (),
        PipelineError,
    >)
        requires
            old(self).wf(),
        ensures
            final(self).wf(),
            match old(self)@.payload_of(frame_id) {
                Some(PayloadView::Frame { frame, updates, span }) => r is Ok && final(self)@
                    == old(self)@.with_payload(
                    frame_id,
                    PayloadView::Frame { frame, updates: updates.push(update@), span },
                ),
                Some(_) => r == Err::<(), PipelineError>(PipelineError::WrongPayload) && final(self)@
                    == old(self)@,
                None => r == Err::<(), PipelineError>(PipelineError::NotFound) && final(self)@
                    == old(self)@,
            },
    {
        let at = match self.get_stage_for_id(frame_id) {
            Ok(at) => at,
            Err(e) => {
                return Err(e);
            },
        };
        let ghost before = self@;
        assert(before.stages[at as int].wf());
        let r = self.stages[at].add_frame_update(frame_id, update);
        proof {
            let now = self@;
            match r {
                Ok(_) => {
                    let changed = self.stages@[at as int]@.payloads[frame_id];
                    assert(now.stages =~= before.with_payload(frame_id, changed).stages);
                    lemma_replace_payload(before, frame_id, changed);
                },
                Err(_) => {
                    assert(now.stages =~= before.stages);
                },
            }
        }
        r
    }

    /// Records an update for a frame of the batch of the id.
    pub fn add_batched_frame_update(
        &mut self,
        batch_id: i64,
        frame_id: i64,
        update: VideoFrameUpdate,
    ) -> (r: Result<(), PipelineError>)
        requires
            old(self).wf(),
        ensures
            final(self).wf(),
            match old(self)@.payload_of(batch_id) {
                Some(PayloadView::Batch { frames, member_updates, spans }) => if frames.contains_key(
                    frame_id,
                ) {
                    r is Ok && final(self)@ == old(self)@.with_payload(
                        batch_id,
                        PayloadView::Batch {
                            frames,
                            member_updates: member_updates.push((frame_id, update@)),
                            spans,
                        },
                    )
                } else {
                    r == Err::<(), PipelineError>(PipelineError::NotFound) && final(self)@ == old(self)@
                },
                Some(_) => r == Err::<(), PipelineError>(PipelineError::WrongPayload) && final(self)@
                    == old(self)@,
                None => r == Err::<(), PipelineError>(PipelineError::NotFound) && final(self)@
                    == old(self)@,
            },
    {
        let at = match self.get_stage_for_id(batch_id) {
            Ok(at) => at,
            Err(e) => {
                return Err(e);
            },
        };
        let ghost before = self@;
        assert(before.stages[at as int].wf());
        let r = self.stages[at].add_batched_frame_update(batch_id, frame_id, update);
        proof {
            let now = self@;
            match r {
                Ok(_) => {
                    let changed = self.stages@[at as int]@.payloads[batch_id];
                    assert(now.stages =~= before.with_payload(batch_id, changed).stages);
                    assert(before.stages[at as int].payloads.contains_key(batch_id));
                    lemma_replace_payload(before, batch_id, changed);
                },
                Err(_) => {
                    assert(now.stages =~= before.stages);
                },
            }
        }
        r
    }

    /// A copy of the independent frame of the id, and of the span of its
    /// stay in its stage.
    pub fn get_independent_frame(&self, frame_id: i64) -> (r: Result<
        (VideoFrame, TelemetryContext),
        PipelineError,
    >)
        requires
            self.wf(),
        ensures
            match self@.payload_of(frame_id) {
                Some(PayloadView::Frame { frame, updates, span }) => r is Ok && r->Ok_0.0@ == frame
                    && r->Ok_0.1 == span,
                Some(_) => r is Err && r->Err_0 == PipelineError::WrongPayload,
                None => r is Err && r->Err_0 == PipelineError::NotFound,
            },
    {
        match self.get_stage_for_id(frame_id) {
            Ok(at) => self.stages[at].get_independent_frame(frame_id),
            Err(e) => Err(e),
        }
    }

    /// A copy of one frame of the batch of the id, and of the span of its
    /// stay in the stage of the batch.
    pub fn get_batched_frame(&self, batch_id: i64, frame_id: i64) -> (r: Result<
        (VideoFrame, TelemetryContext),
        PipelineError,
    >)
        requires
            self.wf(),
        ensures
            match self@.payload_of(batch_id) {
                Some(PayloadView::Batch { frames, member_updates, spans }) => if frames.contains_key(
                    frame_id,
                ) {
                    r is Ok && r->Ok_0.0@ == frames[frame_id] && spans.contains_key(frame_id)
                        && r->Ok_0.1 == spans[frame_id]
                } else {
                    r is Err && r->Err_0 == PipelineError::NotFound
                },
                Some(_) => r is Err && r->Err_0 == PipelineError::WrongPayload,
                None => r is Err && r->Err_0 == PipelineError::NotFound,
            },
    {
        match self.get_stage_for_id(batch_id) {
            Ok(at) => {
                assert(self@.stages[at as int].payloads.contains_key(batch_id)
                    ==> self@.stages_wf());
                self.stages[at].get_batched_frame(batch_id, frame_id)
            },
            Err(e) => Err(e),
        }
    }

    /// A copy of the batch of the id, and of the spans of its frames.
    pub fn get_batch(&self, batch_id: i64) -> (r: Result<(VideoFrameBatch, SpanMap), PipelineError>)
        requires
            self.wf(),
        ensures
            match self@.payload_of(batch_id) {
                Some(PayloadView::Batch { frames, member_updates, spans }) => r is Ok
                    && r->Ok_0.0@ == frames && span_entries(r->Ok_0.1) == spans,
                Some(_) => r is Err && r->Err_0 == PipelineError::WrongPayload,
                None => r is Err && r->Err_0 == PipelineError::NotFound,
            },
    {
        match self.get_stage_for_id(batch_id) {
            Ok(at) => self.stages[at].get_batch(batch_id),
            Err(e) => Err(e),
        }
    }

    /// Applies the recorded updates of the payload of the id: those of a
    /// frame to the frame, those of a batch each to the frame that it names.
    /// The updates stay recorded.
    pub fn apply_updates(&mut self, id: i64) -> (r: Result<(), PipelineError>)
        requires
            old(self).wf(),
        ensures
            final(self).wf(),
            match old(self)@.payload_of(id) {
                Some(payload) => r is Ok && final(self)@ == old(self)@.with_payload(
                    id,
                    payload.updated(),
                ),
                None => r == Err::<(), PipelineError>(PipelineError::NotFound) && final(self)@
                    == old(self)@,
            },
    {
        let at = match self.get_stage_for_id(id) {
            Ok(at) => at,
            Err(e) => {
                return Err(e);
            },
        };
        let ghost before = self@;
        assert(before.stages[at as int].wf());
        let r = self.stages[at].apply_updates(id);
        proof {
            let now = self@;
            match r {
                Ok(_) => {
                    let payload = before.stages[at as int].payloads[id];
                    assert(now.stages =~= before.with_payload(id, payload.updated()).stages);
                    match payload {
                        PayloadView::Batch { frames, member_updates, spans } => {
                            lemma_apply_member_updates_dom(frames, member_updates);
                        },
                        _ => {},
                    }
                    lemma_replace_payload(before, id, payload.updated());
                },
                Err(_) => {
                    assert(now.stages =~= before.stages);
                },
            }
        }
        r
    }

    /// Drops the recorded updates of the payload of the id.
    pub fn clear_updates(&mut self, id: i64) -> (r: Result<(), PipelineError>)
        requires
            old(self).wf(),
        ensures
            final(self).wf(),
            match old(self)@.payload_of(id) {
                Some(payload) => r is Ok && final(self)@ == old(self)@.with_payload(
                    id,
                    payload.cleared(),
                ),
                None => r == Err::<(), PipelineError>(PipelineError::NotFound) && final(self)@
                    == old(self)@,
            },
    {
        let at = match self.get_stage_for_id(id) {
            Ok(at) => at,
            Err(e) => {
                return Err(e);
            },
        };
        let ghost before = self@;
        assert(before.stages[at as int].wf());
        let r = self.stages[at].clear_updates(id);
        proof {
            let now = self@;
            match r {
                Ok(_) => {
                    let payload = before.stages[at as int].payloads[id];
                    assert(now.stages =~= before.with_payload(id, payload.cleared()).stages);
                    lemma_replace_payload(before, id, payload.cleared());
                },
                Err(_) => {
                    assert(now.stages =~= before.stages);
                },
            }
        }
        r
    }

    /// Copies of the objects of which the condition holds, frame by frame:
    /// for an independent frame its own under its id, for a batch those of
    /// each of its frames under the id of the frame.
    pub fn access_objects(&self, frame_id: i64, query: &MatchQuery) -> (r: Result<
        Vec<(i64, Vec<VideoObject>)>,
        PipelineError,
    >)
        requires
            self.wf(),
        ensures
            match self@.payload_of(frame_id) {
                Some(payload) => r is Ok && objects_found(
                    payload,
                    frame_id,
                    *query,
                    found_views(r->Ok_0@),
                ),
                None => r is Err && r->Err_0 == PipelineError::NotFound,
            },
    {
        match self.get_stage_for_id(frame_id) {
            Ok(at) => self.stages[at].access_objects(frame_id, query),
            Err(e) => Err(e),
        }
    }
}

} // verus!
