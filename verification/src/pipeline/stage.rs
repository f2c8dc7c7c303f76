use vstd::prelude::*;
use crate::error::PipelineError;
use crate::pipeline::payload::{
    apply_member_updates, member_update_views, PayloadView, PipelinePayload,
    PipelineStagePayloadType,
};
use crate::pipeline::payloads::{
    payload_entries, payload_map_get, payload_map_insert, payload_map_len, payload_map_new,
    payload_map_remove, PayloadMap,
};

use crate::match_query::{selected_objects, MatchQuery};
use crate::primitives::frame::VideoFrame;
use crate::primitives::object::{object_views, VideoObject, VideoObjectView};
use crate::primitives::frame_batch::VideoFrameBatch;
use crate::primitives::frame_update::{apply_updates_to, update_views, VideoFrameUpdate};
use crate::telemetry::{span_entries, SpanMap, TelemetryContext};

verus! {

/// One stage of the pipeline: a name, the kind of payload that it takes, and
/// the payloads that are in it now, by id.
pub struct PipelineStage {
    stage_name: String,
    stage_type: PipelineStagePayloadType,
    payload: PayloadMap,
}

/// What a [`PipelineStage`] holds.
pub struct StageView {
    pub name: Seq<char>,
    pub kind: PipelineStagePayloadType,
    pub payloads: Map<i64, PayloadView>,
}

impl StageView {
    /// The stage holds finitely many payloads, each of the stage's kind.
    pub open spec fn wf(self) -> bool {
        &&& self.payloads.dom().finite()
        &&& forall|id: i64| #[trigger]
            self.payloads.contains_key(id) ==> self.payloads[id].kind() == self.kind
    }

    /// Why the stage refuses the payload under the id, where it does: the
    /// stage is not of the expected kind, the payload is not, or the id is
    /// taken.
    pub open spec fn refusal(
        self,
        expected: PipelineStagePayloadType,
        id: i64,
        payload: PayloadView,
    ) -> Option<PipelineError> {
        if self.kind != expected {
            Some(PipelineError::WrongStageKind)
        } else if payload.kind() != expected {
            Some(PipelineError::WrongPayload)
        } else if self.payloads.contains_key(id) {
            Some(PipelineError::DuplicateId)
        } else {
            None
        }
    }

    /// Why the stage refuses the list as a whole, where it does: a payload
    /// is not of the stage's kind, or an id is taken or comes twice.
    pub open spec fn list_refusal(self, list: Seq<(i64, PayloadView)>) -> Option<PipelineError> {
        if exists|i: int| 0 <= i < list.len() && (#[trigger] list[i]).1.kind() != self.kind {
            Some(PipelineError::WrongStageKind)
        } else if exists|i: int|
            0 <= i < list.len() && self.payloads.contains_key((#[trigger] list[i]).0) {
            Some(PipelineError::DuplicateId)
        } else if exists|i: int, j: int|
            0 <= i < j < list.len() && (#[trigger] list[i]).0 == (#[trigger] list[j]).0 {
            Some(PipelineError::DuplicateId)
        } else {
            None
        }
    }
}

/// The payloads after each pair of the list was inserted, first to last.
pub open spec fn inserted_all(
    payloads: Map<i64, PayloadView>,
    list: Seq<(i64, PayloadView)>,
) -> Map<i64, PayloadView>
    decreases list.len(),
{
    if list.len() == 0 {
        payloads
    } else {
        inserted_all(payloads, list.drop_last()).insert(list.last().0, list.last().1)
    }
}

/// The views of a list of payloads with their ids, one for one.
pub open spec fn payload_pairs(list: Seq<(i64, PipelinePayload)>) -> Seq<(i64, PayloadView)> {
    list.map_values(|e: (i64, PipelinePayload)| (e.0, e.1@))
}

/// What comes out when the ids are deleted one after the other: each id
/// that the stage has, where it first occurs, with its payload.
pub open spec fn taken(ids: Seq<i64>, payloads: Map<i64, PayloadView>) -> Seq<(i64, PayloadView)>
    decreases ids.len(),
{
    if ids.len() == 0 {
        Seq::empty()
    } else {
        let before = taken(ids.drop_last(), payloads);
        let id = ids.last();
        if payloads.contains_key(id) && !ids.drop_last().contains(id) {
            before.push((id, payloads[id]))
        } else {
            before
        }
    }
}

/// What comes out when ids are deleted is a mapping: no id comes twice, and
/// each id that comes is one of the ids, was in the stage, and comes with
/// the payload that it had.
pub proof fn lemma_taken_is_a_mapping(ids: Seq<i64>, payloads: Map<i64, PayloadView>)
    ensures
        forall|j: int|
            0 <= j < taken(ids, payloads).len() ==> ids.contains(
                (#[trigger] taken(ids, payloads)[j]).0,
            ) && payloads.contains_key(taken(ids, payloads)[j].0) && taken(ids, payloads)[j].1
                == payloads[taken(ids, payloads)[j].0],
        forall|a: int, b: int|
            0 <= a < b < taken(ids, payloads).len() ==> (#[trigger] taken(ids, payloads)[a]).0
                != (#[trigger] taken(ids, payloads)[b]).0,
    decreases ids.len(),
{
    if ids.len() > 0 {
        let prev = ids.drop_last();
        let last = ids.last();
        lemma_taken_is_a_mapping(prev, payloads);
        let before = taken(prev, payloads);
        let now = taken(ids, payloads);
        assert forall|j: int| 0 <= j < now.len() implies ids.contains((#[trigger] now[j]).0)
            && payloads.contains_key(now[j].0) && now[j].1 == payloads[now[j].0] by {
            if j < before.len() {
                assert(now[j] == before[j]);
                let k = choose|k: int| 0 <= k < prev.len() && prev[k] == before[j].0;
                assert(ids[k] == before[j].0);
            } else {
                assert(now[j].0 == last);
                assert(ids[ids.len() - 1] == last);
            }
        }
        assert forall|a: int, b: int| 0 <= a < b < now.len() implies (#[trigger] now[a]).0 != (
        #[trigger] now[b]).0 by {
            if b < before.len() {
                assert(now[a] == before[a] && now[b] == before[b]);
            } else {
                assert(now[a] == before[a]);
                assert(prev.contains(before[a].0));
            }
        }
    }
}

impl View for PipelineStage {
    type V = StageView;

    closed spec fn view(&self) -> StageView {
        StageView {
            name: self.stage_name@,
            kind: self.stage_type,
            payloads: payload_entries(self.payload).map_values(|p: PipelinePayload| p@),
        }
    }
}

impl PipelineStage {
    /// An empty stage.
    pub fn new(name: String, kind: PipelineStagePayloadType) -> (r: Self)
        ensures
            r@ == (StageView { name: name@, kind, payloads: Map::empty() }),
            r@.wf(),
    {
        let r = PipelineStage { stage_name: name, stage_type: kind, payload: payload_map_new() };
        assert(r@.payloads =~= Map::empty());
        r
    }

    /// The name of the stage.
    pub fn name(&self) -> (r: &String)
        ensures
            r@ == self@.name,
    {
        &self.stage_name
    }

    /// The kind of payload that the stage takes.
    pub fn kind(&self) -> (r: PipelineStagePayloadType)
        ensures
            r == self@.kind,
    {
        self.stage_type
    }

    /// Whether the stage has the name.
    pub fn is_named(&self, name: &str) -> (r: bool)
        ensures
            r == (self@.name == name@),
    {
        let wanted = name.to_string();
        self.stage_name == wanted
    }

    /// The number of payloads in the stage.
    pub fn len(&self) -> (r: usize)
        requires
            self@.wf(),
        ensures
            r == self@.payloads.len(),
    {
        let r = payload_map_len(&self.payload);
        assert(self@.payloads.dom() =~= payload_entries(self.payload).dom());
        r
    }

    /// Whether the stage has a payload under the id.
    pub fn contains(&self, id: i64) -> (r: bool)
        ensures
            r == self@.payloads.contains_key(id),
    {
        payload_map_get(&self.payload, id).is_some()
    }

    /// The kind of the payload under the id.
    pub fn payload_kind(&self, id: i64) -> (r: Option<PipelineStagePayloadType>)
        ensures
            r == (if self@.payloads.contains_key(id) {
                Some(self@.payloads[id].kind())
            } else {
                None
            }),
    {
        match payload_map_get(&self.payload, id) {
            Some(payload) => Some(payload.kind()),
            None => None,
        }
    }

    /// Puts the payload under the id, whatever kind it has.
    fn put(&mut self, id: i64, payload: PipelinePayload)
        ensures
            final(self)@ == (StageView {
                payloads: old(self)@.payloads.insert(id, payload@),
                ..old(self)@
            }),
    {
        let _ = payload_map_insert(&mut self.payload, id, payload);
        assert(self@.payloads =~= old(self)@.payloads.insert(id, payload@));
    }

    fn add_checked(
        &mut self,
        expected: PipelineStagePayloadType,
        id: i64,
        payload: PipelinePayload,
    ) -> (r: Result<(), PipelineError>)
        requires
            old(self)@.wf(),
        ensures
            final(self)@.wf(),
            match old(self)@.refusal(expected, id, payload@) {
                Some(e) => r == Err::<(), PipelineError>(e) && final(self)@ == old(self)@,
                None => r is Ok && final(self)@ == (StageView {
                    payloads: old(self)@.payloads.insert(id, payload@),
                    ..old(self)@
                }),
            },
    {
        if self.stage_type != expected {
            return Err(PipelineError::WrongStageKind);
        }
        if payload.kind() != expected {
            return Err(PipelineError::WrongPayload);
        }
        if self.contains(id) {
            return Err(PipelineError::DuplicateId);
        }
        self.put(id, payload);
        Ok(())
    }

    /// Inserts a frame payload under a new id. The stage must take frames,
    /// the payload must be a frame, and the id must be free: else the stage
    /// stays as it is.
    pub fn add_frame_payload(&mut self, id: i64, payload: PipelinePayload) -> (r: Result<
        (),
        PipelineError,
    >)
        requires
            old(self)@.wf(),
        ensures
            final(self)@.wf(),
            match old(self)@.refusal(PipelineStagePayloadType::Frame, id, payload@) {
                Some(e) => r == Err::<(), PipelineError>(e) && final(self)@ == old(self)@,
                None => r is Ok && final(self)@ == (StageView {
                    payloads: old(self)@.payloads.insert(id, payload@),
                    ..old(self)@
                }),
            },
    {
        self.add_checked(PipelineStagePayloadType::Frame, id, payload)
    }

    /// Inserts a batch payload under a new id. The stage must take batches,
    /// the payload must be a batch, and the id must be free: else the stage
    /// stays as it is.
    pub fn add_batch_payload(&mut self, id: i64, payload: PipelinePayload) -> (r: Result<
        (),
        PipelineError,
    >)
        requires
            old(self)@.wf(),
        ensures
            final(self)@.wf(),
            match old(self)@.refusal(PipelineStagePayloadType::Batch, id, payload@) {
                Some(e) => r == Err::<(), PipelineError>(e) && final(self)@ == old(self)@,
                None => r is Ok && final(self)@ == (StageView {
                    payloads: old(self)@.payloads.insert(id, payload@),
                    ..old(self)@
                }),
            },
    {
        self.add_checked(PipelineStagePayloadType::Batch, id, payload)
    }

    /// Why the stage refuses the list, if it does.
    fn check_list(&self, list: &Vec<(i64, PipelinePayload)>) -> (r: Option<PipelineError>)
        ensures
            r == self@.list_refusal(payload_pairs(list@)),
    {
        let ghost pairs = payload_pairs(list@);
        let mut i: usize = 0;
        while i < list.len()
            invariant
                i <= list.len(),
                pairs == payload_pairs(list@),
                forall|k: int| 0 <= k < i ==> (#[trigger] pairs[k]).1.kind() == self@.kind,
            decreases list.len() - i,
        {
            if list[i].1.kind() != self.stage_type {
                assert(pairs[i as int].1.kind() != self@.kind);
                return Some(PipelineError::WrongStageKind);
            }
            i += 1;
        }
        let mut i: usize = 0;
        while i < list.len()
            invariant
                i <= list.len(),
                pairs == payload_pairs(list@),
                forall|k: int| 0 <= k < list.len() ==> (#[trigger] pairs[k]).1.kind() == self@.kind,
                forall|k: int| 0 <= k < i ==> !self@.payloads.contains_key((#[trigger] pairs[k]).0),
            decreases list.len() - i,
        {
            if self.contains(list[i].0) {
                assert(self@.payloads.contains_key(pairs[i as int].0));
                return Some(PipelineError::DuplicateId);
            }
            i += 1;
        }
        let mut j: usize = 0;
        while j < list.len()
            invariant
                j <= list.len(),
                pairs == payload_pairs(list@),
                forall|k: int| 0 <= k < list.len() ==> (#[trigger] pairs[k]).1.kind() == self@.kind,
                forall|k: int|
                    0 <= k < list.len() ==> !self@.payloads.contains_key((#[trigger] pairs[k]).0),
                forall|a: int, b: int|
                    0 <= a < b < j ==> (#[trigger] pairs[a]).0 != (#[trigger] pairs[b]).0,
            decreases list.len() - j,
        {
            let mut i: usize = 0;
            while i < j
                invariant
                    i <= j < list.len(),
                    pairs == payload_pairs(list@),
                    forall|k: int|
                        0 <= k < list.len() ==> (#[trigger] pairs[k]).1.kind() == self@.kind,
                    forall|k: int|
                        0 <= k < list.len() ==> !self@.payloads.contains_key(
                            (#[trigger] pairs[k]).0,
                        ),
                    forall|a: int| 0 <= a < i ==> (#[trigger] pairs[a]).0 != pairs[j as int].0,
                decreases j - i,
            {
                if list[i].0 == list[j].0 {
                    assert(pairs[i as int].0 == pairs[j as int].0);
                    return Some(PipelineError::DuplicateId);
                }
                i += 1;
            }
            j += 1;
        }
        None
    }

    /// Inserts all payloads of the list, or none: the stage refuses the
    /// list where a payload is not of its kind, or an id is taken or comes
    /// twice.
    pub fn add_payloads(&mut self, payloads: Vec<(i64, PipelinePayload)>) -> (r: Result<
        (),
        PipelineError,
    >)
        requires
            old(self)@.wf(),
        ensures
            final(self)@.wf(),
            match old(self)@.list_refusal(payload_pairs(payloads@)) {
                Some(e) => r == Err::<(), PipelineError>(e) && final(self)@ == old(self)@,
                None => r is Ok && final(self)@ == (StageView {
                    payloads: inserted_all(old(self)@.payloads, payload_pairs(payloads@)),
                    ..old(self)@
                }),
            },
    {
        match self.check_list(&payloads) {
            Some(e) => {
                return Err(e);
            },
            None => {},
        }
        let ghost pairs = payload_pairs(payloads@);
        let ghost start = self@;
        let ghost n = pairs.len() as int;
        let mut payloads = payloads;
        let ghost mut done: int = 0;
        assert(payload_pairs(payloads@) =~= pairs.skip(0));
        while payloads.len() > 0
            invariant
                self@.wf(),
                start.wf(),
                n == pairs.len(),
                0 <= done <= n,
                done + payloads.len() == n,
                payload_pairs(payloads@) == pairs.skip(done),
                forall|k: int| 0 <= k < n ==> (#[trigger] pairs[k]).1.kind() == start.kind,
                self@ == (StageView {
                    payloads: inserted_all(start.payloads, pairs.take(done)),
                    ..start
                }),
            decreases payloads.len(),
        {
            let ghost waiting = payloads@;
            let (id, payload) = payloads.remove(0);
            proof {
                assert(waiting[0] == (id, payload));
                assert(payload_pairs(waiting)[0] == (id, payload@));
                assert(pairs.skip(done)[0] == pairs[done]);
                assert(payloads@ =~= waiting.skip(1));
                assert(payload_pairs(payloads@) =~= payload_pairs(waiting).skip(1));
                assert(pairs.skip(done).skip(1) =~= pairs.skip(done + 1));
                assert(pairs.take(done + 1).drop_last() =~= pairs.take(done));
                assert(pairs.take(done + 1).last() == pairs[done]);
            }
            self.put(id, payload);
            proof {
                done = done + 1;
            }
        }
        assert(pairs.take(n) =~= pairs);
        Ok(())
    }

    /// Takes the payload of the id out of the stage.
    pub fn delete(&mut self, id: i64) -> (r: Option<PipelinePayload>)
        requires
            old(self)@.wf(),
        ensures
            final(self)@.wf(),
            final(self)@ == (StageView { payloads: old(self)@.payloads.remove(id), ..old(self)@ }),
            match r {
                Some(payload) => old(self)@.payloads.contains_key(id) && payload@ == old(
                    self,
                )@.payloads[id],
                None => !old(self)@.payloads.contains_key(id),
            },
    {
        let r = payload_map_remove(&mut self.payload, id);
        assert(self@.payloads =~= old(self)@.payloads.remove(id));
        r
    }

    /// Takes the payloads of the ids out of the stage, in the order of the
    /// ids. An id that the stage does not have, or has no more, is passed
    /// over: what comes out is a mapping from ids to payloads, written down
    /// in the order in which the ids were asked for.
    pub fn delete_many(&mut self, ids: &Vec<i64>) -> (r: Vec<(i64, PipelinePayload)>)
        requires
            old(self)@.wf(),
        ensures
            final(self)@.wf(),
            final(self)@ == (StageView {
                payloads: old(self)@.payloads.remove_keys(ids@.to_set()),
                ..old(self)@
            }),
            payload_pairs(r@) == taken(ids@, old(self)@.payloads),
            forall|a: int, b: int| 0 <= a < b < r.len() ==> (#[trigger] r@[a]).0 != (#[trigger] r@[b]).0,
    {
        let ghost start = self@;
        let mut out: Vec<(i64, PipelinePayload)> = Vec::new();
        let mut i: usize = 0;
        assert(self@.payloads =~= start.payloads.remove_keys(ids@.take(0).to_set()));
        assert(payload_pairs(out@) =~= taken(ids@.take(0), start.payloads));
        while i < ids.len()
            invariant
                i <= ids.len(),
                self@.wf(),
                self@ == (StageView {
                    payloads: start.payloads.remove_keys(ids@.take(i as int).to_set()),
                    ..start
                }),
                payload_pairs(out@) == taken(ids@.take(i as int), start.payloads),
            decreases ids.len() - i,
        {
            let id = ids[i];
            let ghost before = self@;
            let ghost pairs = payload_pairs(out@);
            proof {
                crate::id_sets::lemma_take_push_set(ids@, i as int);
                assert(ids@.take(i as int + 1).drop_last() =~= ids@.take(i as int));
                assert(ids@.take(i as int + 1).last() == id);
            }
            match self.delete(id) {
                Some(payload) => {
                    out.push((id, payload));
                    assert(payload_pairs(out@) =~= pairs.push((id, payload@)));
                },
                None => {},
            }
            assert(self@.payloads =~= start.payloads.remove_keys(
                ids@.take(i as int + 1).to_set(),
            ));
            i += 1;
        }
        assert(ids@.take(i as int) =~= ids@);
        proof {
            lemma_taken_is_a_mapping(ids@, start.payloads);
            assert forall|a: int, b: int| 0 <= a < b < out.len() implies (#[trigger] out@[a]).0 != (
            #[trigger] out@[b]).0 by {
                assert(payload_pairs(out@)[a].0 == out@[a].0);
                assert(payload_pairs(out@)[b].0 == out@[b].0);
            }
        }
        out
    }

    /// Records an update for the frame under the id.
    pub fn add_frame_update(&mut self, frame_id: i64, update: VideoFrameUpdate) -> (r: Result<
        (),
        PipelineError,
    >)
        requires
            old(self)@.wf(),
        ensures
            final(self)@.wf(),
            match r {
                Ok(_) => old(self)@.payloads.contains_key(frame_id) && match old(
                    self,
                )@.payloads[frame_id] {
                    PayloadView::Frame { frame, updates, span } => final(self)@ == (StageView {
                        payloads: old(self)@.payloads.insert(
                            frame_id,
                            PayloadView::Frame { frame, updates: updates.push(update@), span },
                        ),
                        ..old(self)@
                    }),
                    _ => false,
                },
                Err(e) => final(self)@ == old(self)@ && e == (if !old(self)@.payloads.contains_key(
                    frame_id,
                ) {
                    PipelineError::NotFound
                } else {
                    PipelineError::WrongPayload
                }) && !(old(self)@.payloads.contains_key(frame_id) && old(
                    self,
                )@.payloads[frame_id] is Frame),
            },
    {
        match self.payload_kind(frame_id) {
            None => {
                return Err(PipelineError::NotFound);
            },
            Some(PipelineStagePayloadType::Batch) => {
                return Err(PipelineError::WrongPayload);
            },
            Some(PipelineStagePayloadType::Frame) => {},
        }
        match self.delete(frame_id) {
            Some(PipelinePayload::Frame(frame, updates, span)) => {
                let ghost before = update_views(updates@);
                let mut updates = updates;
                updates.push(update);
                assert(update_views(updates@) =~= before.push(update@));
                self.put(frame_id, PipelinePayload::Frame(frame, updates, span));
                assert(self@.payloads =~= old(self)@.payloads.insert(
                    frame_id,
                    PayloadView::Frame { frame: frame@, updates: before.push(update@), span },
                ));
                Ok(())
            },
            Some(other) => {
                self.put(frame_id, other);
                assert(self@.payloads =~= old(self)@.payloads);
                Err(PipelineError::WrongPayload)
            },
            None => Err(PipelineError::NotFound),
        }
    }

    /// Records an update for a member of the batch under the id.
    pub fn add_batched_frame_update(
        &mut self,
        batch_id: i64,
        frame_id: i64,
        update: VideoFrameUpdate,
    ) -> (r: Result<(), PipelineError>)
        requires
            old(self)@.wf(),
        ensures
            final(self)@.wf(),
            match r {
                Ok(_) => old(self)@.payloads.contains_key(batch_id) && match old(
                    self,
                )@.payloads[batch_id] {
                    PayloadView::Batch { frames, member_updates, spans } => frames.contains_key(
                        frame_id,
                    ) && final(self)@ == (StageView {
                        payloads: old(self)@.payloads.insert(
                            batch_id,
                            PayloadView::Batch {
                                frames,
                                member_updates: member_updates.push((frame_id, update@)),
                                spans,
                            },
                        ),
                        ..old(self)@
                    }),
                    _ => false,
                },
                Err(e) => final(self)@ == old(self)@ && e == (if !old(self)@.payloads.contains_key(
                    batch_id,
                ) {
                    PipelineError::NotFound
                } else if old(self)@.payloads[batch_id] is Frame {
                    PipelineError::WrongPayload
                } else {
                    PipelineError::NotFound
                }) && !(old(self)@.payloads.contains_key(batch_id) && old(
                    self,
                )@.payloads[batch_id] is Batch && old(self)@.payloads[batch_id].members().contains(
                    frame_id,
                )),
            },
    {
        match self.payload_kind(batch_id) {
            None => {
                return Err(PipelineError::NotFound);
            },
            Some(PipelineStagePayloadType::Frame) => {
                return Err(PipelineError::WrongPayload);
            },
            Some(PipelineStagePayloadType::Batch) => {},
        }
        match self.delete(batch_id) {
            Some(PipelinePayload::Batch(batch, updates, spans)) => {
                if !batch.contains(frame_id) {
                    self.put(batch_id, PipelinePayload::Batch(batch, updates, spans));
                    assert(self@.payloads =~= old(self)@.payloads);
                    return Err(PipelineError::NotFound);
                }
                let ghost before = member_update_views(updates@);
                let mut updates = updates;
                updates.push((frame_id, update));
                assert(member_update_views(updates@) =~= before.push((frame_id, update@)));
                self.put(batch_id, PipelinePayload::Batch(batch, updates, spans));
                assert(self@.payloads =~= old(self)@.payloads.insert(
                    batch_id,
                    PayloadView::Batch {
                        frames: batch@,
                        member_updates: before.push((frame_id, update@)),
                        spans: span_entries(spans),
                    },
                ));
                Ok(())
            },
            Some(other) => {
                self.put(batch_id, other);
                assert(self@.payloads =~= old(self)@.payloads);
                Err(PipelineError::WrongPayload)
            },
            None => Err(PipelineError::NotFound),
        }
    }

    /// A copy of the frame under the id, and of its span.
    pub fn get_independent_frame(&self, frame_id: i64) -> (r: Result<
        (VideoFrame, TelemetryContext),
        PipelineError,
    >)
        ensures
            match r {
                Ok((found, context)) => self@.payloads.contains_key(frame_id) && match self@.payloads[frame_id] {
                    PayloadView::Frame { frame, updates, span } => found@ == frame && context
                        == span,
                    _ => false,
                },
                Err(e) => e == (if !self@.payloads.contains_key(frame_id) {
                    PipelineError::NotFound
                } else {
                    PipelineError::WrongPayload
                }) && !(self@.payloads.contains_key(frame_id) && self@.payloads[frame_id] is Frame),
            },
    {
        match payload_map_get(&self.payload, frame_id) {
            Some(PipelinePayload::Frame(frame, _, span)) => Ok((frame.clone(), span.clone())),
            Some(_) => Err(PipelineError::WrongPayload),
            None => Err(PipelineError::NotFound),
        }
    }

    /// A copy of one frame of the batch under the id, and of its span.
    pub fn get_batched_frame(&self, batch_id: i64, frame_id: i64) -> (r: Result<
        (VideoFrame, TelemetryContext),
        PipelineError,
    >)
        ensures
            match r {
                Ok((found, context)) => self@.payloads.contains_key(batch_id) && match self@.payloads[batch_id] {
                    PayloadView::Batch { frames, member_updates, spans } => frames.contains_key(
                        frame_id,
                    ) && spans.contains_key(frame_id) && found@ == frames[frame_id] && context
                        == spans[frame_id],
                    _ => false,
                },
                Err(e) => e == (if !self@.payloads.contains_key(batch_id) {
                    PipelineError::NotFound
                } else if self@.payloads[batch_id] is Frame {
                    PipelineError::WrongPayload
                } else {
                    PipelineError::NotFound
                }) && !(self@.payloads.contains_key(batch_id) && match self@.payloads[batch_id] {
                    PayloadView::Batch { frames, member_updates, spans } => frames.contains_key(
                        frame_id,
                    ) && spans.contains_key(frame_id),
                    _ => false,
                }),
            },
    {
        match payload_map_get(&self.payload, batch_id) {
            Some(PipelinePayload::Batch(batch, _, spans)) => {
                match batch.get(frame_id) {
                    Some(frame) => match spans.get(frame_id) {
                        Some(context) => Ok((frame, context)),
                        None => Err(PipelineError::NotFound),
                    },
                    None => Err(PipelineError::NotFound),
                }
            },
            Some(_) => Err(PipelineError::WrongPayload),
            None => Err(PipelineError::NotFound),
        }
    }

    /// A copy of the batch under the id, and of the spans of its members.
    pub fn get_batch(&self, batch_id: i64) -> (r: Result<(VideoFrameBatch, SpanMap), PipelineError>)
        ensures
            match r {
                Ok((batch, contexts)) => self@.payloads.contains_key(batch_id) && match self@.payloads[batch_id] {
                    PayloadView::Batch { frames, member_updates, spans } => batch@ == frames
                        && span_entries(contexts) == spans,
                    _ => false,
                },
                Err(e) => e == (if !self@.payloads.contains_key(batch_id) {
                    PipelineError::NotFound
                } else {
                    PipelineError::WrongPayload
                }) && !(self@.payloads.contains_key(batch_id) && self@.payloads[batch_id] is Batch),
            },
    {
        match payload_map_get(&self.payload, batch_id) {
            Some(PipelinePayload::Batch(batch, _, spans)) => Ok((batch.clone(), spans.clone())),
            Some(_) => Err(PipelineError::WrongPayload),
            None => Err(PipelineError::NotFound),
        }
    }

    /// Applies the recorded updates of the payload under the id: those of a
    /// frame to the frame, those of a batch each to the member that it
    /// names. The updates stay recorded.
    pub fn apply_updates(&mut self, id: i64) -> (r: Result<(), PipelineError>)
        requires
            old(self)@.wf(),
        ensures
            final(self)@.wf(),
            match r {
                Ok(_) => old(self)@.payloads.contains_key(id) && final(self)@ == (StageView {
                    payloads: old(self)@.payloads.insert(id, old(self)@.payloads[id].updated()),
                    ..old(self)@
                }),
                Err(e) => e == PipelineError::NotFound && !old(self)@.payloads.contains_key(id)
                    && final(self)@ == old(self)@,
            },
    {
        match self.delete(id) {
            Some(PipelinePayload::Frame(frame, updates, span)) => {
                let mut frame = frame;
                apply_updates_to(&updates, &mut frame);
                self.put(id, PipelinePayload::Frame(frame, updates, span));
                assert(self@.payloads =~= old(self)@.payloads.insert(
                    id,
                    old(self)@.payloads[id].updated(),
                ));
                Ok(())
            },
            Some(PipelinePayload::Batch(batch, updates, spans)) => {
                let mut batch = batch;
                let ghost start = batch@;
                let ghost all = member_update_views(updates@);
                let mut i: usize = 0;
                while i < updates.len()
                    invariant
                        i <= updates.len(),
                        all == member_update_views(updates@),
                        batch@ == apply_member_updates(start, all.take(i as int)),
                    decreases updates.len() - i,
                {
                    let member = updates[i].0;
                    proof {
                        assert(all.take(i as int + 1).drop_last() =~= all.take(i as int));
                        assert(all.take(i as int + 1).last() == (member, updates@[i as int].1@));
                    }
                    let ghost before = batch@;
                    match batch.take(member) {
                        Some(frame) => {
                            let mut frame = frame;
                            updates[i].1.apply_to(&mut frame);
                            batch.add(member, frame);
                            assert(batch@ =~= before.insert(member, frame@));
                        },
                        None => {
                            assert(batch@ =~= before);
                        },
                    }
                    i += 1;
                }
                assert(all.take(i as int) =~= all);
                self.put(id, PipelinePayload::Batch(batch, updates, spans));
                assert(self@.payloads =~= old(self)@.payloads.insert(
                    id,
                    old(self)@.payloads[id].updated(),
                ));
                Ok(())
            },
            None => {
                assert(self@.payloads =~= old(self)@.payloads);
                Err(PipelineError::NotFound)
            },
        }
    }

    /// Drops the recorded updates of the payload under the id.
    pub fn clear_updates(&mut self, id: i64) -> (r: Result<(), PipelineError>)
        requires
            old(self)@.wf(),
        ensures
            final(self)@.wf(),
            match r {
                Ok(_) => old(self)@.payloads.contains_key(id) && final(self)@ == (StageView {
                    payloads: old(self)@.payloads.insert(id, old(self)@.payloads[id].cleared()),
                    ..old(self)@
                }),
                Err(e) => e == PipelineError::NotFound && !old(self)@.payloads.contains_key(id)
                    && final(self)@ == old(self)@,
            },
    {
        match self.delete(id) {
            Some(PipelinePayload::Frame(frame, _, span)) => {
                let updates: Vec<VideoFrameUpdate> = Vec::new();
                assert(update_views(updates@) =~= Seq::empty());
                self.put(id, PipelinePayload::Frame(frame, updates, span));
                assert(self@.payloads =~= old(self)@.payloads.insert(
                    id,
                    old(self)@.payloads[id].cleared(),
                ));
                Ok(())
            },
            Some(PipelinePayload::Batch(batch, _, spans)) => {
                let updates: Vec<(i64, VideoFrameUpdate)> = Vec::new();
                assert(member_update_views(updates@) =~= Seq::empty());
                self.put(id, PipelinePayload::Batch(batch, updates, spans));
                assert(self@.payloads =~= old(self)@.payloads.insert(
                    id,
                    old(self)@.payloads[id].cleared(),
                ));
                Ok(())
            },
            None => {
                assert(self@.payloads =~= old(self)@.payloads);
                Err(PipelineError::NotFound)
            },
        }
    }

    /// Copies of the objects of which the condition holds, frame by frame:
    /// for a frame payload those of the frame, under the id of the payload;
    /// for a batch those of each of its frames, under the id of the frame,
    /// the frames in no stated order.
    pub fn access_objects(&self, frame_id: i64, query: &MatchQuery) -> (r: Result<
        Vec<(i64, Vec<VideoObject>)>,
        PipelineError,
    >)
        ensures
            match r {
                Ok(found) => self@.payloads.contains_key(frame_id) && objects_found(
                    self@.payloads[frame_id],
                    frame_id,
                    *query,
                    found_views(found@),
                ),
                Err(e) => e == PipelineError::NotFound && !self@.payloads.contains_key(frame_id),
            },
    {
        match payload_map_get(&self.payload, frame_id) {
            None => Err(PipelineError::NotFound),
            Some(PipelinePayload::Frame(frame, _, _)) => {
                let mut found: Vec<(i64, Vec<VideoObject>)> = Vec::new();
                found.push((frame_id, frame.access_objects(query)));
                assert(found_views(found@)[0] == (frame_id, object_views(found@[0].1@)));
                assert(found_views(found@) =~= seq![
                    (frame_id, selected_objects(frame@.objects, *query)),
                ]);
                Ok(found)
            },
            Some(PipelinePayload::Batch(batch, _, _)) => {
                let ids = batch.ids();
                let mut found: Vec<(i64, Vec<VideoObject>)> = Vec::new();
                let mut i: usize = 0;
                while i < ids.len()
                    invariant
                        i <= ids.len(),
                        found.len() == i,
                        ids@.to_set() == batch@.dom(),
                        forall|j: int|
                            0 <= j < i ==> (#[trigger] found_views(found@)[j]).0 == ids@[j]
                                && found_views(found@)[j].1 == selected_objects(
                                batch@[ids@[j]].objects,
                                *query,
                            ),
                    decreases ids.len() - i,
                {
                    let id = ids[i];
                    assert(ids@.to_set().contains(id));
                    let ghost before = found_views(found@);
                    match batch.get(id) {
                        Some(frame) => {
                            found.push((id, frame.access_objects(query)));
                        },
                        None => {
                            found.push((id, Vec::new()));
                        },
                    }
                    proof {
                        let now = found_views(found@);
                        assert(now[i as int] == (found@[i as int].0, object_views(found@[i as int].1@)));
                        assert forall|j: int| 0 <= j < i implies now[j] == before[j] by {
                            assert(now[j] == (found@[j].0, object_views(found@[j].1@)));
                        }
                    }
                    i += 1;
                }
                proof {
                    let views = found_views(found@);
                    let keys = views.map_values(|e: (i64, Seq<VideoObjectView>)| e.0);
                    assert forall|j: int| 0 <= j < keys.len() implies keys[j] == ids@[j] by {
                        assert(views[j].0 == ids@[j]);
                    }
                    assert(keys =~= ids@);
                    assert forall|j: int| 0 <= j < views.len() implies (#[trigger] views[j]).1
                        == selected_objects(batch@[views[j].0].objects, *query) by {
                        assert(views[j].0 == ids@[j]);
                    }
                }
                Ok(found)
            },
        }
    }
}

/// What a list of objects per frame holds.
pub open spec fn found_views(found: Seq<(i64, Vec<VideoObject>)>) -> Seq<
    (i64, Seq<VideoObjectView>),
> {
    found.map_values(|e: (i64, Vec<VideoObject>)| (e.0, object_views(e.1@)))
}

/// Whether `found` is what the query finds in the payload: for a frame
/// payload one entry, with the id of the payload and the objects of the
/// frame of which the condition holds; for a batch one entry for each of its
/// frames, with the id of the frame and those of its objects of which the
/// condition holds.
pub open spec fn objects_found(
    payload: PayloadView,
    id: i64,
    query: MatchQuery,
    found: Seq<(i64, Seq<VideoObjectView>)>,
) -> bool {
    match payload {
        PayloadView::Frame { frame, updates, span } => found == seq![
            (id, selected_objects(frame.objects, query)),
        ],
        PayloadView::Batch { frames, member_updates, spans } => {
            &&& found.map_values(|e: (i64, Seq<VideoObjectView>)| e.0).no_duplicates()
            &&& found.map_values(|e: (i64, Seq<VideoObjectView>)| e.0).to_set() == frames.dom()
            &&& forall|j: int|
                0 <= j < found.len() ==> (#[trigger] found[j]).1 == selected_objects(
                    frames[found[j].0].objects,
                    query,
                )
        },
    }
}

} // verus!
