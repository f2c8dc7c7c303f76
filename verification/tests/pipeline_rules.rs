use savant_core::error::PipelineError;
use savant_core::pipeline::ingress::ingress_span_name;
use savant_core::pipeline::movement::stage_span_name;
use savant_core::pipeline::stage::PipelineStage;
use savant_core::pipeline::{Pipeline, PipelinePayload, PipelineStagePayloadType};
use savant_core::primitives::attribute::{Attribute, AttributeValue};
use savant_core::primitives::frame_batch::VideoFrameBatch;
use savant_core::primitives::frame_update::VideoFrameUpdate;
use savant_core::telemetry::{is_sampled, SpanMap, TelemetryContext};
use savant_core::test::{gen_empty_frame, gen_frame};

fn four_stages() -> Pipeline {
    Pipeline::new(vec![
        ("input".to_string(), PipelineStagePayloadType::Frame),
        ("proc1".to_string(), PipelineStagePayloadType::Batch),
        ("proc2".to_string(), PipelineStagePayloadType::Batch),
        ("output".to_string(), PipelineStagePayloadType::Frame),
    ])
    .unwrap()
}

fn update_with(name: &str, value: &str) -> VideoFrameUpdate {
    let mut update = VideoFrameUpdate::default();
    update.add_frame_attribute(Attribute::persistent(
        "update",
        name,
        vec![AttributeValue::String(value.to_string())],
        &None,
        false,
    ));
    update
}

fn string_value(frame: &savant_core::primitives::frame::VideoFrame, name: &str) -> Option<String> {
    frame
        .get_attribute("update", name)
        .and_then(|a| a.values.first().and_then(|v| v.as_string()))
}

#[test]
fn duplicate_stage_names_are_refused() {
    let r = Pipeline::new(vec![
        ("a".to_string(), PipelineStagePayloadType::Frame),
        ("b".to_string(), PipelineStagePayloadType::Batch),
        ("a".to_string(), PipelineStagePayloadType::Frame),
    ]);
    assert!(matches!(r, Err(PipelineError::DuplicateStage)));
}

#[test]
fn a_pipeline_without_stages_admits_nothing() {
    let mut pipeline = Pipeline::new(vec![]).unwrap();
    assert_eq!(pipeline.stage_count(), 0);
    assert_eq!(pipeline.add_frame("input", gen_frame()), Err(PipelineError::NotFound));
    assert_eq!(pipeline.get_id_locations_len(), 0);
}

#[test]
fn ingress_errors_leave_the_counters_alone() {
    let mut pipeline = four_stages();
    assert_eq!(pipeline.add_frame("nowhere", gen_frame()), Err(PipelineError::NotFound));
    assert_eq!(pipeline.add_frame("proc1", gen_frame()), Err(PipelineError::WrongStageKind));
    assert_eq!(pipeline.get_id_counter(), 0);
    assert_eq!(pipeline.add_frame("input", gen_frame()), Ok(1));
    assert_eq!(pipeline.get_id_counter(), 1);
}

#[test]
fn ids_are_strictly_increasing_across_frames_and_batches() {
    let mut pipeline = four_stages();
    let a = pipeline.add_frame("input", gen_frame()).unwrap();
    let b = pipeline.add_frame("input", gen_frame()).unwrap();
    let batch = pipeline.move_and_pack_frames("proc1", vec![a, b]).unwrap();
    let c = pipeline.add_frame("input", gen_frame()).unwrap();
    pipeline.delete(c).unwrap();
    let d = pipeline.add_frame("output", gen_frame()).unwrap();
    assert_eq!((a, b, batch, c, d), (1, 2, 3, 4, 5));
}

#[test]
fn located_ids_are_the_payloads_and_the_batch_members() {
    let mut pipeline = four_stages();
    let a = pipeline.add_frame("input", gen_frame()).unwrap();
    let b = pipeline.add_frame("input", gen_frame()).unwrap();
    let c = pipeline.add_frame("output", gen_frame()).unwrap();
    assert_eq!(pipeline.get_id_locations_len(), 3);
    assert_eq!(
        pipeline.get_stage_queue_len("input").unwrap()
            + pipeline.get_stage_queue_len("output").unwrap(),
        3
    );
    let batch = pipeline.move_and_pack_frames("proc1", vec![a, b]).unwrap();
    assert_eq!(pipeline.get_id_locations_len(), 4);
    assert_eq!(pipeline.get_stage_for_id(a), Ok(1));
    assert_eq!(pipeline.get_stage_for_id(b), Ok(1));
    assert_eq!(pipeline.get_stage_for_id(batch), Ok(1));
    assert_eq!(pipeline.get_stage_for_id(c), Ok(3));
    pipeline.move_as_is("proc2", vec![batch]).unwrap();
    assert_eq!(pipeline.get_stage_for_id(a), Ok(2));
    assert_eq!(pipeline.get_stage_for_id(batch), Ok(2));
    let roots = pipeline.delete(batch).unwrap();
    let mut released = roots.ids();
    released.sort();
    assert_eq!(released, vec![a, b]);
    assert_eq!(pipeline.get_id_locations_len(), 1);
    assert_eq!(pipeline.get_stage_for_id(a), Err(PipelineError::NotFound));
}

#[test]
fn delete_of_a_frame_returns_its_root_span() {
    let mut pipeline = four_stages();
    let a = pipeline.add_frame("input", gen_frame()).unwrap();
    let roots = pipeline.delete(a).unwrap();
    assert_eq!(roots.ids(), vec![a]);
    assert_eq!(roots.get(a).unwrap().trace_id(), 0);
    assert!(matches!(pipeline.delete(a), Err(PipelineError::NotFound)));
    assert!(matches!(pipeline.delete(77), Err(PipelineError::NotFound)));
}

#[test]
fn a_batch_member_is_no_payload() {
    let mut pipeline = four_stages();
    let a = pipeline.add_frame("input", gen_frame()).unwrap();
    let batch = pipeline.move_and_pack_frames("proc1", vec![a]).unwrap();
    assert!(matches!(pipeline.delete(a), Err(PipelineError::NotFound)));
    assert_eq!(pipeline.move_as_is("proc2", vec![a]), Err(PipelineError::NotFound));
    assert_eq!(pipeline.add_frame_update(a, update_with("x", "1")), Err(PipelineError::NotFound));
    assert_eq!(
        pipeline.get_independent_frame(a).err(),
        Some(PipelineError::NotFound)
    );
    assert_eq!(
        pipeline.move_and_unpack_batch("output", a).err(),
        Some(PipelineError::NotFound)
    );
    assert!(pipeline.get_batched_frame(batch, a).is_ok());
    assert_eq!(pipeline.get_id_locations_len(), 2);
}

#[test]
fn movement_errors_come_in_order_and_change_nothing() {
    let mut pipeline = four_stages();
    let a = pipeline.add_frame("input", gen_frame()).unwrap();
    let b = pipeline.add_frame("output", gen_frame()).unwrap();
    assert_eq!(pipeline.move_as_is("output", vec![]), Err(PipelineError::EmptyIds));
    assert_eq!(pipeline.move_as_is("output", vec![a, 99]), Err(PipelineError::NotFound));
    assert_eq!(pipeline.move_as_is("output", vec![a, b]), Err(PipelineError::MixedStages));
    assert_eq!(pipeline.move_as_is("nowhere", vec![a]), Err(PipelineError::NotFound));
    assert_eq!(pipeline.move_as_is("input", vec![a]), Err(PipelineError::ForwardOnlyViolation));
    assert_eq!(pipeline.move_as_is("input", vec![b]), Err(PipelineError::ForwardOnlyViolation));
    assert_eq!(pipeline.move_as_is("proc1", vec![a]), Err(PipelineError::WrongStageKind));
    assert_eq!(pipeline.move_and_pack_frames("proc1", vec![]), Err(PipelineError::EmptyIds));
    assert_eq!(pipeline.move_and_pack_frames("output", vec![a]), Err(PipelineError::WrongStageKind));
    assert_eq!(pipeline.move_and_pack_frames("input", vec![b]), Err(PipelineError::ForwardOnlyViolation));
    assert_eq!(
        pipeline.move_and_unpack_batch("output", a).err(),
        Some(PipelineError::WrongStageKind)
    );
    assert_eq!(
        pipeline.move_and_unpack_batch("output", 99).err(),
        Some(PipelineError::NotFound)
    );
    assert_eq!(pipeline.get_stage_queue_len("input"), Ok(1));
    assert_eq!(pipeline.get_stage_queue_len("output"), Ok(1));
    assert_eq!(pipeline.get_id_counter(), 2);
    assert_eq!(pipeline.get_stage_queue_len("nowhere"), Err(PipelineError::NotFound));
}

#[test]
fn a_batch_cannot_be_unpacked_backwards_or_into_batches() {
    let mut pipeline = four_stages();
    let a = pipeline.add_frame("input", gen_frame()).unwrap();
    let batch = pipeline.move_and_pack_frames("proc2", vec![a]).unwrap();
    assert_eq!(
        pipeline.move_and_unpack_batch("input", batch).err(),
        Some(PipelineError::ForwardOnlyViolation)
    );
    assert_eq!(
        pipeline.move_and_unpack_batch("proc2", batch).err(),
        Some(PipelineError::ForwardOnlyViolation)
    );
    assert_eq!(pipeline.move_as_is("proc1", vec![batch]), Err(PipelineError::ForwardOnlyViolation));
    assert_eq!(pipeline.move_and_unpack_batch("output", batch), Ok(vec![a]));
}

#[test]
fn an_id_that_comes_twice_moves_once() {
    let mut pipeline = four_stages();
    let a = pipeline.add_frame("input", gen_frame()).unwrap();
    let b = pipeline.add_frame("input", gen_frame()).unwrap();
    pipeline.move_as_is("output", vec![a, a]).unwrap();
    assert_eq!(pipeline.get_stage_queue_len("input"), Ok(1));
    assert_eq!(pipeline.get_stage_queue_len("output"), Ok(1));
    let c = pipeline.add_frame("input", gen_frame()).unwrap();
    let batch = pipeline.move_and_pack_frames("proc1", vec![b, c, b]).unwrap();
    let (frames, spans) = pipeline.get_batch(batch).unwrap();
    let mut members = frames.ids();
    members.sort();
    assert_eq!(members, vec![b, c]);
    let mut with_spans = spans.ids();
    with_spans.sort();
    assert_eq!(with_spans, vec![b, c]);
}

#[test]
fn wrong_payload_kinds_are_told_apart() {
    let mut pipeline = four_stages();
    let a = pipeline.add_frame("input", gen_frame()).unwrap();
    let b = pipeline.add_frame("input", gen_frame()).unwrap();
    let batch = pipeline.move_and_pack_frames("proc1", vec![b]).unwrap();
    assert_eq!(pipeline.get_batch(a).err(), Some(PipelineError::WrongPayload));
    assert_eq!(pipeline.get_batched_frame(a, a).err(), Some(PipelineError::WrongPayload));
    assert_eq!(pipeline.get_independent_frame(batch).err(), Some(PipelineError::WrongPayload));
    assert_eq!(
        pipeline.add_frame_update(batch, update_with("x", "1")),
        Err(PipelineError::WrongPayload)
    );
    assert_eq!(
        pipeline.add_batched_frame_update(a, a, update_with("x", "1")),
        Err(PipelineError::WrongPayload)
    );
    assert_eq!(
        pipeline.add_batched_frame_update(batch, a, update_with("x", "1")),
        Err(PipelineError::NotFound)
    );
    assert_eq!(pipeline.get_batched_frame(batch, a).err(), Some(PipelineError::NotFound));
    assert_eq!(pipeline.apply_updates(99), Err(PipelineError::NotFound));
    assert_eq!(pipeline.clear_updates(99), Err(PipelineError::NotFound));
}

#[test]
fn updates_stay_until_cleared_and_clearing_twice_is_clearing_once() {
    let mut pipeline = four_stages();
    let a = pipeline.add_frame("input", gen_empty_frame()).unwrap();
    pipeline.add_frame_update(a, update_with("attribute", "1")).unwrap();
    pipeline.apply_updates(a).unwrap();
    let (frame, _) = pipeline.get_independent_frame(a).unwrap();
    assert_eq!(string_value(&frame, "attribute"), Some("1".to_string()));
    assert_eq!(frame.attribute_count(), 1);
    pipeline.apply_updates(a).unwrap();
    let (again, _) = pipeline.get_independent_frame(a).unwrap();
    assert_eq!(again, frame);
    pipeline.clear_updates(a).unwrap();
    pipeline.add_frame_update(a, update_with("attribute", "2")).unwrap();
    pipeline.clear_updates(a).unwrap();
    let (once, _) = pipeline.get_independent_frame(a).unwrap();
    pipeline.clear_updates(a).unwrap();
    pipeline.apply_updates(a).unwrap();
    let (twice, _) = pipeline.get_independent_frame(a).unwrap();
    assert_eq!(once, twice);
    assert_eq!(string_value(&twice, "attribute"), Some("1".to_string()));
}

#[test]
fn a_later_update_replaces_an_earlier_one() {
    let mut pipeline = four_stages();
    let a = pipeline.add_frame("input", gen_empty_frame()).unwrap();
    pipeline.add_frame_update(a, update_with("attribute", "1")).unwrap();
    pipeline.add_frame_update(a, update_with("other", "x")).unwrap();
    pipeline.add_frame_update(a, update_with("attribute", "2")).unwrap();
    pipeline.apply_updates(a).unwrap();
    let (frame, _) = pipeline.get_independent_frame(a).unwrap();
    assert_eq!(string_value(&frame, "attribute"), Some("2".to_string()));
    assert_eq!(string_value(&frame, "other"), Some("x".to_string()));
    assert_eq!(frame.attribute_count(), 2);
}

#[test]
fn packing_carries_the_updates_of_the_frames_and_unpacking_routes_them_back() {
    let mut pipeline = four_stages();
    let a = pipeline.add_frame("input", gen_empty_frame()).unwrap();
    let b = pipeline.add_frame("input", gen_empty_frame()).unwrap();
    pipeline.add_frame_update(a, update_with("first", "a1")).unwrap();
    pipeline.add_frame_update(b, update_with("first", "b1")).unwrap();
    pipeline.add_frame_update(a, update_with("second", "a2")).unwrap();
    let batch = pipeline.move_and_pack_frames("proc1", vec![a, b]).unwrap();
    pipeline.add_batched_frame_update(batch, b, update_with("second", "b2")).unwrap();
    let mut ids = pipeline.move_and_unpack_batch("output", batch).unwrap();
    ids.sort();
    assert_eq!(ids, vec![a, b]);
    assert_eq!(pipeline.get_stage_for_id(batch), Err(PipelineError::NotFound));
    assert_eq!(pipeline.get_id_locations_len(), 2);
    pipeline.apply_updates(a).unwrap();
    pipeline.apply_updates(b).unwrap();
    let (fa, _) = pipeline.get_independent_frame(a).unwrap();
    let (fb, _) = pipeline.get_independent_frame(b).unwrap();
    assert_eq!(string_value(&fa, "first"), Some("a1".to_string()));
    assert_eq!(string_value(&fa, "second"), Some("a2".to_string()));
    assert_eq!(string_value(&fb, "first"), Some("b1".to_string()));
    assert_eq!(string_value(&fb, "second"), Some("b2".to_string()));
}

#[test]
fn unpacking_and_packing_again_keeps_members_and_their_updates() {
    let mut pipeline = Pipeline::new(vec![
        ("in".to_string(), PipelineStagePayloadType::Frame),
        ("batched".to_string(), PipelineStagePayloadType::Batch),
        ("single".to_string(), PipelineStagePayloadType::Frame),
        ("again".to_string(), PipelineStagePayloadType::Batch),
    ])
    .unwrap();
    let a = pipeline.add_frame("in", gen_empty_frame()).unwrap();
    let b = pipeline.add_frame("in", gen_empty_frame()).unwrap();
    let batch = pipeline.move_and_pack_frames("batched", vec![a, b]).unwrap();
    pipeline.add_batched_frame_update(batch, b, update_with("k", "b1")).unwrap();
    pipeline.add_batched_frame_update(batch, a, update_with("k", "a1")).unwrap();
    pipeline.add_batched_frame_update(batch, b, update_with("k", "b2")).unwrap();
    let ids = pipeline.move_and_unpack_batch("single", batch).unwrap();
    let second = pipeline.move_and_pack_frames("again", ids).unwrap();
    assert!(second > batch);
    let (frames, _) = pipeline.get_batch(second).unwrap();
    let mut members = frames.ids();
    members.sort();
    assert_eq!(members, vec![a, b]);
    pipeline.apply_updates(second).unwrap();
    let (fa, _) = pipeline.get_batched_frame(second, a).unwrap();
    let (fb, _) = pipeline.get_batched_frame(second, b).unwrap();
    assert_eq!(string_value(&fa, "k"), Some("a1".to_string()));
    assert_eq!(string_value(&fb, "k"), Some("b2".to_string()));
}

#[test]
fn once_settable_values_are_set_once() {
    let mut pipeline = four_stages();
    assert_eq!(pipeline.get_sampling_period(), 0);
    assert_eq!(pipeline.get_root_span_name(), "video_pipeline");
    assert_eq!(pipeline.set_sampling_period(3), Ok(()));
    assert_eq!(pipeline.set_sampling_period(3), Err(PipelineError::AlreadySet));
    assert_eq!(pipeline.set_sampling_period(4), Err(PipelineError::AlreadySet));
    assert_eq!(pipeline.get_sampling_period(), 3);
    assert_eq!(pipeline.set_root_span_name("root".to_string()), Ok(()));
    assert_eq!(pipeline.set_root_span_name("other".to_string()), Err(PipelineError::AlreadySet));
    assert_eq!(pipeline.get_root_span_name(), "root");
}

#[test]
fn reading_a_default_does_not_set_it() {
    let mut pipeline = four_stages();
    assert_eq!(pipeline.get_sampling_period(), 0);
    pipeline.add_frame("input", gen_frame()).unwrap();
    assert_eq!(pipeline.set_sampling_period(5), Ok(()));
    assert_eq!(pipeline.get_sampling_period(), 5);
}

#[test]
fn sampling_picks_every_nth_frame() {
    assert!(!is_sampled(0, 1));
    assert!(!is_sampled(-3, 3));
    assert!(is_sampled(1, 1));
    assert!(!is_sampled(2, 1));
    assert!(is_sampled(2, 2));
    assert!(!is_sampled(3, 4));
    assert!(is_sampled(3, 6));
}

#[test]
fn no_span_is_opened_under_a_context_without_trace() {
    let parent = TelemetryContext::untraced();
    assert!(!parent.is_traced());
    let child = parent.nested("child");
    assert_eq!(child.trace_id(), 0);
    let same = Pipeline::get_nested_span("child", &parent);
    assert!(!same.is_traced());
    let copy = TelemetryContext::from_context(parent.context());
    assert_eq!(copy.trace_id(), 0);
}

#[test]
fn a_frame_under_an_untraced_parent_is_untraced() {
    let mut pipeline = four_stages();
    let id = pipeline
        .add_frame_with_telemetry("input", gen_frame(), TelemetryContext::untraced())
        .unwrap();
    let (_, span) = pipeline.get_independent_frame(id).unwrap();
    assert!(!span.is_traced());
    assert_eq!(
        pipeline.add_frame_with_telemetry("proc1", gen_frame(), TelemetryContext::untraced()),
        Err(PipelineError::WrongStageKind)
    );
}

#[test]
fn find_stage_searches_from_the_start_index() {
    let pipeline = four_stages();
    assert_eq!(pipeline.find_stage("proc1", 0), Some(1));
    assert_eq!(pipeline.find_stage("proc1", 1), Some(1));
    assert_eq!(pipeline.find_stage("proc1", 2), None);
    assert_eq!(pipeline.find_stage("proc1", 9), None);
    assert_eq!(pipeline.get_stage_type("output"), Some(PipelineStagePayloadType::Frame));
    assert_eq!(pipeline.get_stage_type("nowhere"), None);
}

#[test]
fn a_stage_takes_only_its_kind_and_each_id_once() {
    let mut stage = PipelineStage::new("s".to_string(), PipelineStagePayloadType::Frame);
    let frame = || PipelinePayload::Frame(gen_frame(), vec![], TelemetryContext::untraced());
    let batch = || PipelinePayload::Batch(VideoFrameBatch::new(), vec![], SpanMap::new());
    assert_eq!(stage.add_frame_payload(1, frame()), Ok(()));
    assert_eq!(stage.add_frame_payload(1, frame()), Err(PipelineError::DuplicateId));
    assert_eq!(stage.add_frame_payload(2, batch()), Err(PipelineError::WrongPayload));
    assert_eq!(stage.add_batch_payload(2, batch()), Err(PipelineError::WrongStageKind));
    assert_eq!(stage.len(), 1);
    assert_eq!(
        stage.add_payloads(vec![(2, frame()), (3, batch())]),
        Err(PipelineError::WrongStageKind)
    );
    assert_eq!(
        stage.add_payloads(vec![(2, frame()), (1, frame())]),
        Err(PipelineError::DuplicateId)
    );
    assert_eq!(
        stage.add_payloads(vec![(2, frame()), (2, frame())]),
        Err(PipelineError::DuplicateId)
    );
    assert_eq!(stage.len(), 1);
    assert_eq!(stage.add_payloads(vec![(2, frame()), (3, frame())]), Ok(()));
    assert_eq!(stage.len(), 3);
    let removed = stage.delete_many(&vec![3, 7, 1, 3]);
    let ids: Vec<i64> = removed.iter().map(|e| e.0).collect();
    assert_eq!(ids, vec![3, 1]);
    assert_eq!(stage.len(), 1);
    assert!(stage.contains(2));
    assert!(stage.delete(2).is_some());
    assert!(stage.delete(2).is_none());
    assert_eq!(stage.len(), 0);
    assert_eq!(stage.kind(), PipelineStagePayloadType::Frame);
    assert_eq!(stage.name(), "s");
}

#[test]
fn stage_spans_are_named_after_their_stage() {
    assert_eq!(ingress_span_name("input"), "add/input");
    assert_eq!(stage_span_name("proc1"), "stage/proc1");
    assert_eq!(stage_span_name(""), "stage/");
}
