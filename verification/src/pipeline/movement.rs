//! What the three movements share: finding the source and the destination,
//! and opening the spans of the new stay.

use vstd::prelude::*;
use vstd::string::StringExecFns;
use crate::error::PipelineError;
use crate::pipeline::locations::{location_entries, location_map_insert, LocationMap};
use crate::pipeline::model::{opened_under, PipelineView};
use crate::pipeline::payload::{PayloadView, PipelinePayload};
use crate::pipeline::stage::{inserted_all, taken};
use crate::pipeline::Pipeline;
use crate::id_sets::lemma_take_push_set;
use crate::telemetry::{span_entries, span_map_insert, SpanMap, TelemetryContext};

verus! {

/// The locations after the ids were located at `index`.
pub open spec fn relocated(locations: Map<i64, usize>, ids: Set<i64>, index: usize) -> Map<
    i64,
    usize,
> {
    Map::new(
        |k: i64| locations.contains_key(k) || ids.contains(k),
        |k: i64|
            if ids.contains(k) {
                index
            } else {
                locations[k]
            },
    )
}

/// Locates each id of the list at `index`.
pub(crate) fn relocate(locations: &mut LocationMap, ids: &Vec<i64>, index: usize)
    ensures
        location_entries(*final(locations)) == relocated(
            location_entries(*old(locations)),
            ids@.to_set(),
            index,
        ),
{
    let ghost start = location_entries(*locations);
    let mut i: usize = 0;
    assert(ids@.take(0).to_set() =~= Set::<i64>::empty());
    assert(location_entries(*locations) =~= relocated(start, ids@.take(0).to_set(), index));
    while i < ids.len()
        invariant
            i <= ids.len(),
            location_entries(*locations) == relocated(start, ids@.take(i as int).to_set(), index),
        decreases ids.len() - i,
    {
        proof {
            lemma_take_push_set(ids@, i as int);
        }
        let _ = location_map_insert(locations, ids[i], index);
        assert(location_entries(*locations) =~= relocated(
            start,
            ids@.take(i as int + 1).to_set(),
            index,
        ));
        i += 1;
    }
    assert(ids@.take(i as int) =~= ids@);
}

/// Whether `after` is `before` with the spans of a new stay: the frames
/// and the recorded updates are the same, and each frame has a span that was
/// opened under its root span. `id` is the id of the payload.
pub open spec fn rotated(
    roots: Map<i64, TelemetryContext>,
    id: i64,
    before: PayloadView,
    after: PayloadView,
) -> bool {
    match before {
        PayloadView::Frame { frame, updates, span } => match after {
            PayloadView::Frame { frame: frame2, updates: updates2, span: span2 } => frame2
                == frame && updates2 == updates && opened_under(roots[id], span2),
            _ => false,
        },
        PayloadView::Batch { frames, member_updates, spans } => match after {
            PayloadView::Batch { frames: frames2, member_updates: updates2, spans: spans2 } => {
                &&& frames2 == frames
                &&& updates2 == member_updates
                &&& spans2.dom() == spans.dom()
                &&& forall|m: i64| #[trigger]
                    spans2.contains_key(m) ==> opened_under(roots[m], spans2[m])
            },
            _ => false,
        },
    }
}

/// The name of the span of a stay in a stage that a payload was moved to:
/// `stage/` and the name of the stage.
pub fn stage_span_name(stage_name: &str) -> (r: String)
    ensures
        r@ == "stage/"@ + stage_name@,
{
    String::from_str("stage/").concat(stage_name)
}

/// Ends the span of the id in the old spans and opens one of the given name
/// under the root span of the id, which the roots must have.
pub(crate) fn rotate_span(roots: &SpanMap, id: i64, old_span: &TelemetryContext, span_name: &str) -> (r:
    TelemetryContext)
    requires
        span_entries(*roots).contains_key(id),
    ensures
        opened_under(span_entries(*roots)[id], r),
{
    old_span.end();
    match roots.get(id) {
        Some(root) => root.nested(span_name),
        None => {
            proof {
                assert(false);
            }
            TelemetryContext::untraced()
        },
    }
}

/// Ends every span of the map and opens, for each id of the map, a span of
/// the given name under the root span of the id, which the roots must have.
pub(crate) fn rotate_spans(roots: &SpanMap, spans: &SpanMap, span_name: &str) -> (r: SpanMap)
    requires
        forall|m: i64| #[trigger]
            span_entries(*spans).contains_key(m) ==> span_entries(*roots).contains_key(m),
    ensures
        span_entries(r).dom() == span_entries(*spans).dom(),
        forall|m: i64| #[trigger]
            span_entries(r).contains_key(m) ==> opened_under(
                span_entries(*roots)[m],
                span_entries(r)[m],
            ),
{
    let ids = spans.ids();
    let mut out = SpanMap::new();
    let mut i: usize = 0;
    assert(ids@.take(0).to_set() =~= Set::<i64>::empty());
    assert(span_entries(out).dom() =~= ids@.take(0).to_set());
    while i < ids.len()
        invariant
            i <= ids.len(),
            ids@.to_set() == span_entries(*spans).dom(),
            forall|m: i64| #[trigger]
                span_entries(*spans).contains_key(m) ==> span_entries(*roots).contains_key(m),
            span_entries(out).dom() == ids@.take(i as int).to_set(),
            forall|m: i64| #[trigger]
                span_entries(out).contains_key(m) ==> opened_under(
                    span_entries(*roots)[m],
                    span_entries(out)[m],
                ),
        decreases ids.len() - i,
    {
        let member = ids[i];
        proof {
            lemma_take_push_set(ids@, i as int);
            assert(ids@.to_set().contains(member));
            assert(span_entries(*spans).contains_key(member));
        }
        let fresh = match spans.get(member) {
            Some(old_span) => rotate_span(roots, member, &old_span, span_name),
            None => {
                proof {
                    assert(false);
                }
                TelemetryContext::untraced()
            },
        };
        let _ = span_map_insert(&mut out, member, fresh);
        assert(span_entries(out).dom() =~= ids@.take(i as int + 1).to_set());
        i += 1;
    }
    assert(ids@.take(i as int) =~= ids@);
    out
}

/// Whether the roots have a root span for each frame of the payload: for
/// the frame of a frame payload, under the id of the payload, and for each
/// frame of a batch that has a span.
pub open spec fn has_roots(roots: Map<i64, TelemetryContext>, id: i64, payload: PayloadView) -> bool {
    match payload {
        PayloadView::Frame { frame, updates, span } => roots.contains_key(id),
        PayloadView::Batch { frames, member_updates, spans } => forall|m: i64| #[trigger]
            spans.contains_key(m) ==> roots.contains_key(m),
    }
}

/// The payload with the spans of a new stay. The roots must have a root
/// span for each frame of the payload.
pub(crate) fn rotate_payload(roots: &SpanMap, id: i64, payload: PipelinePayload, span_name: &str) -> (r:
    PipelinePayload)
    requires
        has_roots(span_entries(*roots), id, payload@),
    ensures
        rotated(span_entries(*roots), id, payload@, r@),
{
    match payload {
        PipelinePayload::Frame(frame, updates, span) => {
            let fresh = rotate_span(roots, id, &span, span_name);
            PipelinePayload::Frame(frame, updates, fresh)
        },
        PipelinePayload::Batch(batch, updates, spans) => {
            proof {
                let view = PipelinePayload::Batch(batch, updates, spans)@;
                assert(has_roots(span_entries(*roots), id, view));
                assert(view->spans == span_entries(spans));
                assert forall|m: i64| #[trigger]
                    span_entries(spans).contains_key(m) implies span_entries(*roots).contains_key(
                    m,
                ) by {
                    assert(view->spans.contains_key(m));
                }
            }
            let fresh = rotate_spans(roots, &spans, span_name);
            PipelinePayload::Batch(batch, updates, fresh)
        },
    }
}

/// What holds of the pairs that come out when ids are deleted that the stage
/// all has: their ids are distinct, each is one of the ids and comes with its
/// payload, and none of the ids is missing.
pub proof fn lemma_taken(ids: Seq<i64>, payloads: Map<i64, PayloadView>)
    requires
        forall|i: int| 0 <= i < ids.len() ==> payloads.contains_key(#[trigger] ids[i]),
    ensures
        forall|j: int|
            0 <= j < taken(ids, payloads).len() ==> ids.contains(
                (#[trigger] taken(ids, payloads)[j]).0,
            ) && taken(ids, payloads)[j].1 == payloads[taken(ids, payloads)[j].0],
        forall|a: int, b: int|
            0 <= a < b < taken(ids, payloads).len() ==> (#[trigger] taken(ids, payloads)[a]).0
                != (#[trigger] taken(ids, payloads)[b]).0,
        forall|i: int|
            0 <= i < ids.len() ==> exists|j: int|
                0 <= j < taken(ids, payloads).len() && (#[trigger] taken(ids, payloads)[j]).0
                    == #[trigger] ids[i],
    decreases ids.len(),
{
    if ids.len() > 0 {
        let prev = ids.drop_last();
        let last = ids.last();
        lemma_taken(prev, payloads);
        let before = taken(prev, payloads);
        let now = taken(ids, payloads);
        assert forall|i: int| 0 <= i < prev.len() implies payloads.contains_key(
            #[trigger] prev[i],
        ) by {
            assert(prev[i] == ids[i]);
        }
        assert forall|j: int| 0 <= j < now.len() implies ids.contains((#[trigger] now[j]).0)
            && now[j].1 == payloads[now[j].0] by {
            if j < before.len() {
                assert(now[j] == before[j]);
                let k = choose|k: int| 0 <= k < prev.len() && prev[k] == before[j].0;
                assert(ids[k] == before[j].0);
            } else {
                assert(now[j].0 == last);
                assert(ids[ids.len() - 1] == last);
            }
        }
        assert forall|a: int, b: int| 0 <= a < b < now.len() implies (#[trigger] now[a]).0 != (
        #[trigger] now[b]).0 by {
            if b < before.len() {
                assert(now[a] == before[a] && now[b] == before[b]);
            } else {
                assert(now[a] == before[a]);
                assert(prev.contains(before[a].0));
            }
        }
        assert forall|i: int| 0 <= i < ids.len() implies exists|j: int|
            0 <= j < now.len() && (#[trigger] now[j]).0 == #[trigger] ids[i] by {
            if i < prev.len() {
                assert(prev[i] == ids[i]);
                let j = choose|j: int| 0 <= j < before.len() && (#[trigger] before[j]).0 == prev[i];
                assert(now[j] == before[j]);
            } else {
                assert(ids[i] == last);
                if prev.contains(last) {
                    let k = choose|k: int| 0 <= k < prev.len() && prev[k] == last;
                    let j = choose|j: int|
                        0 <= j < before.len() && (#[trigger] before[j]).0 == prev[k];
                    assert(now[j] == before[j]);
                } else {
                    assert(now[now.len() - 1].0 == last);
                }
            }
        }
    }
}

/// What a map holds after pairs with distinct ids were inserted: what it
/// held before, and each pair.
pub proof fn lemma_inserted_all(payloads: Map<i64, PayloadView>, list: Seq<(i64, PayloadView)>)
    requires
        forall|a: int, b: int|
            0 <= a < b < list.len() ==> (#[trigger] list[a]).0 != (#[trigger] list[b]).0,
    ensures
        forall|k: i64|
            inserted_all(payloads, list).contains_key(k) <==> payloads.contains_key(k) || exists|
                j: int,
            | 0 <= j < list.len() && (#[trigger] list[j]).0 == k,
        forall|j: int|
            0 <= j < list.len() ==> inserted_all(payloads, list)[(#[trigger] list[j]).0]
                == list[j].1,
        forall|k: i64|
            payloads.contains_key(k) && (forall|j: int|
                0 <= j < list.len() ==> (#[trigger] list[j]).0 != k) ==> #[trigger] inserted_all(
                payloads,
                list,
            )[k] == payloads[k],
    decreases list.len(),
{
    if list.len() > 0 {
        let prev = list.drop_last();
        let last = list.last();
        assert forall|a: int, b: int| 0 <= a < b < prev.len() implies (#[trigger] prev[a]).0 != (
        #[trigger] prev[b]).0 by {
            assert(prev[a] == list[a] && prev[b] == list[b]);
        }
        lemma_inserted_all(payloads, prev);
        let before = inserted_all(payloads, prev);
        let now = inserted_all(payloads, list);
        assert(now == before.insert(last.0, last.1));
        assert forall|k: i64|
            now.contains_key(k) <==> payloads.contains_key(k) || exists|j: int|
                0 <= j < list.len() && (#[trigger] list[j]).0 == k by {
            if now.contains_key(k) {
                if k == last.0 {
                    assert(list[list.len() - 1].0 == k);
                } else if !payloads.contains_key(k) {
                    let j = choose|j: int| 0 <= j < prev.len() && (#[trigger] prev[j]).0 == k;
                    assert(list[j].0 == k);
                }
            }
            if exists|j: int| 0 <= j < list.len() && (#[trigger] list[j]).0 == k {
                let j = choose|j: int| 0 <= j < list.len() && (#[trigger] list[j]).0 == k;
                if j < prev.len() {
                    assert(prev[j].0 == k);
                }
            }
        }
        assert forall|j: int| 0 <= j < list.len() implies now[(#[trigger] list[j]).0]
            == list[j].1 by {
            if j < prev.len() {
                assert(prev[j] == list[j]);
                assert(list[j].0 != list[list.len() - 1].0);
            }
        }
        assert forall|k: i64|
            payloads.contains_key(k) && (forall|j: int|
                0 <= j < list.len() ==> (#[trigger] list[j]).0 != k) implies #[trigger] now[k]
            == payloads[k] by {
            assert(list[list.len() - 1].0 != k);
            assert forall|j: int| 0 <= j < prev.len() implies (#[trigger] prev[j]).0 != k by {
                assert(prev[j] == list[j]);
            }
        }
    }
}

impl PipelineView {
    /// Why the ids have no common source stage, where they have none: there
    /// is no id, an id is not located, or two ids are located differently.
    pub open spec fn source_refusal(self, ids: Seq<i64>) -> Option<PipelineError> {
        if ids.len() == 0 {
            Some(PipelineError::EmptyIds)
        } else if exists|i: int| 0 <= i < ids.len() && !self.locations.contains_key(#[trigger] ids[i]) {
            Some(PipelineError::NotFound)
        } else if exists|i: int|
            0 <= i < ids.len() && self.locations[#[trigger] ids[i]] != self.locations[ids[0]] {
            Some(PipelineError::MixedStages)
        } else {
            None
        }
    }

    /// Why the stage of the name is no destination for a movement out of
    /// the stage at `source`, where it is none: there is no such stage, or
    /// it does not come after the source.
    pub open spec fn destination_refusal(self, source: int, name: Seq<char>) -> Option<
        PipelineError,
    > {
        if self.stage_index(name) >= self.stages.len() {
            Some(PipelineError::NotFound)
        } else if self.stage_index(name) <= source {
            Some(PipelineError::ForwardOnlyViolation)
        } else {
            None
        }
    }
}

impl Pipeline {
    /// Locates each id of the list at the stage of the index.
    pub(crate) fn update_frame_locations(&mut self, ids: &Vec<i64>, index: usize)
        ensures
            final(self)@ == (PipelineView {
                locations: relocated(old(self)@.locations, ids@.to_set(), index),
                ..old(self)@
            }),
    {
        relocate(&mut self.frame_locations, ids, index);
    }

    /// The stage index of each id of the list, or `NotFound` where an id is
    /// not located.
    pub(crate) fn get_stages_for_ids(&self, ids: &Vec<i64>) -> (r: Result<
        Vec<(i64, usize)>,
        PipelineError,
    >)
        ensures
            match r {
                Ok(found) => found.len() == ids.len() && forall|i: int|
                    0 <= i < ids.len() ==> self@.locations.contains_key(#[trigger] ids@[i])
                        && found@[i] == (ids@[i], self@.locations[ids@[i]]),
                Err(e) => e == PipelineError::NotFound && exists|i: int|
                    0 <= i < ids.len() && !self@.locations.contains_key(#[trigger] ids@[i]),
            },
    {
        let mut results: Vec<(i64, usize)> = Vec::new();
        let mut i: usize = 0;
        while i < ids.len()
            invariant
                i <= ids.len(),
                results.len() == i,
                forall|k: int|
                    0 <= k < i ==> self@.locations.contains_key(#[trigger] ids@[k])
                        && results@[k] == (ids@[k], self@.locations[ids@[k]]),
            decreases ids.len() - i,
        {
            match self.get_stage_for_id(ids[i]) {
                Ok(at) => {
                    results.push((ids[i], at));
                },
                Err(e) => {
                    return Err(e);
                },
            }
            i += 1;
        }
        Ok(results)
    }

    /// The index of the one stage where all ids of the list are located.
    pub(crate) fn check_ids_in_the_same_stage(&self, ids: &Vec<i64>) -> (r: Result<
        usize,
        PipelineError,
    >)
        ensures
            match self@.source_refusal(ids@) {
                Some(e) => r == Err::<usize, PipelineError>(e),
                None => r == Ok::<usize, PipelineError>(self@.locations[ids@[0]]),
            },
    {
        if ids.len() == 0 {
            return Err(PipelineError::EmptyIds);
        }
        let stages = match self.get_stages_for_ids(ids) {
            Ok(stages) => stages,
            Err(e) => {
                return Err(e);
            },
        };
        let stage = stages[0].1;
        let mut i: usize = 1;
        while i < stages.len()
            invariant
                1 <= i <= stages.len(),
                stages.len() == ids.len(),
                stage == self@.locations[ids@[0]],
                forall|k: int|
                    0 <= k < ids.len() ==> self@.locations.contains_key(#[trigger] ids@[k])
                        && stages@[k] == (ids@[k], self@.locations[ids@[k]]),
                forall|k: int| 0 <= k < i ==> self@.locations[#[trigger] ids@[k]] == stage,
            decreases stages.len() - i,
        {
            if stages[i].1 != stage {
                assert(self@.locations[ids@[i as int]] != self@.locations[ids@[0]]);
                return Err(PipelineError::MixedStages);
            }
            i += 1;
        }
        Ok(stage)
    }

    /// The index of the stage of the name, as the destination of a movement
    /// out of the stage at `source`.
    pub(crate) fn find_destination(&self, source: usize, name: &str) -> (r: Result<
        usize,
        PipelineError,
    >)
        ensures
            match self@.destination_refusal(source as int, name@) {
                Some(e) => r == Err::<usize, PipelineError>(e),
                None => r is Ok && r->Ok_0 as int == self@.stage_index(name@) && r->Ok_0
                    < self@.stages.len(),
            },
    {
        match self.find_stage(name, 0) {
            None => Err(PipelineError::NotFound),
            Some(at) => {
                if at <= source {
                    Err(PipelineError::ForwardOnlyViolation)
                } else {
                    Ok(at)
                }
            },
        }
    }
}

} // verus!
