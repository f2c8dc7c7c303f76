use opentelemetry::global;
use opentelemetry_sdk::trace::SdkTracerProvider;
use savant_core::error::PipelineError;
use savant_core::pipeline::{Pipeline, PipelineStagePayloadType};
use savant_core::primitives::attribute::{Attribute, AttributeValue};
use savant_core::primitives::frame_update::VideoFrameUpdate;
use savant_core::test::gen_frame;

fn create_pipeline() -> Result<Pipeline, PipelineError> {
    let pipeline = Pipeline::new(vec![
        ("input".to_string(), PipelineStagePayloadType::Frame),
        ("proc1".to_string(), PipelineStagePayloadType::Batch),
        ("proc2".to_string(), PipelineStagePayloadType::Batch),
        ("output".to_string(), PipelineStagePayloadType::Frame),
    ])?;
    Ok(pipeline)
}

fn install_tracer() {
    global::set_tracer_provider(SdkTracerProvider::builder().build());
}

#[test]
fn test_new_pipeline() -> Result<(), PipelineError> {
    let pipeline = create_pipeline()?;
    assert_eq!(pipeline.get_id_counter(), 0);
    assert_eq!(pipeline.stage_count(), 4);
    Ok(())
}

#[test]
fn test_get_stage_type() -> Result<(), PipelineError> {
    let pipeline = create_pipeline()?;
    assert!(matches!(
        pipeline.find_stage_type("input", 0),
        Some(PipelineStagePayloadType::Frame)
    ));
    assert!(matches!(
        pipeline.find_stage_type("proc1", 0),
        Some(PipelineStagePayloadType::Batch)
    ));
    Ok(())
}

#[test]
fn test_add_del_frame() -> Result<(), PipelineError> {
    let mut pipeline = create_pipeline()?;
    let id = pipeline.add_frame("input", gen_frame())?;
    assert_eq!(pipeline.get_stage_queue_len("input")?, 1);
    assert!(pipeline.add_frame("proc1", gen_frame()).is_err());
    assert_eq!(pipeline.get_stage_queue_len("proc1")?, 0);

    pipeline.delete(id)?;
    assert_eq!(pipeline.get_stage_queue_len("input")?, 0);

    Ok(())
}

#[test]
fn test_frame_to_batch() -> Result<(), PipelineError> {
    let mut pipeline = create_pipeline()?;
    let id = pipeline.add_frame("input", gen_frame())?;
    let batch_id = pipeline.move_and_pack_frames("proc1", vec![id])?;

    assert!(pipeline.get_independent_frame(id).is_err());
    assert_eq!(pipeline.get_stage_queue_len("input")?, 0);
    assert_eq!(pipeline.get_stage_queue_len("proc1")?, 1);
    pipeline.get_batch(batch_id)?;
    pipeline.get_batched_frame(batch_id, id)?;
    Ok(())
}

#[test]
fn test_batch_to_frame() -> Result<(), PipelineError> {
    let mut pipeline = create_pipeline()?;
    let id = pipeline.add_frame("input", gen_frame())?;
    let batch_id = pipeline.move_and_pack_frames("proc2", vec![id])?;
    assert_eq!(pipeline.get_stage_queue_len("input")?, 0);
    assert_eq!(pipeline.get_stage_queue_len("proc2")?, 1);
    assert_eq!(pipeline.get_stage_queue_len("output")?, 0);
    pipeline.move_and_unpack_batch("output", batch_id)?;
    assert_eq!(pipeline.get_stage_queue_len("input")?, 0);
    assert_eq!(pipeline.get_stage_queue_len("proc2")?, 0);
    assert_eq!(pipeline.get_stage_queue_len("output")?, 1);
    let _frame = pipeline.get_independent_frame(id)?;
    Ok(())
}

#[test]
fn test_batch_to_batch() -> Result<(), PipelineError> {
    let mut pipeline = create_pipeline()?;
    let id = pipeline.add_frame("input", gen_frame())?;
    let batch_id = pipeline.move_and_pack_frames("proc1", vec![id])?;
    pipeline.move_as_is("proc2", vec![batch_id])?;
    assert_eq!(pipeline.get_stage_queue_len("input")?, 0);
    assert_eq!(pipeline.get_stage_queue_len("proc1")?, 0);
    assert_eq!(pipeline.get_stage_queue_len("proc2")?, 1);
    let _batch = pipeline.get_batch(batch_id)?;
    let _frame = pipeline.get_batched_frame(batch_id, id)?;
    Ok(())
}

#[test]
fn test_frame_to_frame() -> Result<(), PipelineError> {
    let mut pipeline = create_pipeline()?;
    let id = pipeline.add_frame("input", gen_frame())?;
    pipeline.move_as_is("output", vec![id])?;
    assert_eq!(pipeline.get_stage_queue_len("input")?, 0);
    assert_eq!(pipeline.get_stage_queue_len("output")?, 1);
    let _frame = pipeline.get_independent_frame(id)?;
    Ok(())
}

fn get_update() -> VideoFrameUpdate {
    let mut update = VideoFrameUpdate::default();
    update.add_frame_attribute(Attribute::persistent(
        "update",
        "attribute",
        vec![AttributeValue::String("1".into())],
        &Some("test"),
        false,
    ));
    update
}

#[test]
fn test_frame_update() -> Result<(), PipelineError> {
    let mut pipeline = create_pipeline()?;
    let id = pipeline.add_frame("input", gen_frame())?;
    let update = get_update();
    pipeline.add_frame_update(id, update)?;
    pipeline.apply_updates(id)?;
    let (frame, _) = pipeline.get_independent_frame(id)?;
    frame.get_attribute("update", "attribute").unwrap();
    Ok(())
}

#[test]
fn test_batch_update() -> Result<(), PipelineError> {
    let mut pipeline = create_pipeline()?;
    let id = pipeline.add_frame("input", gen_frame())?;
    let batch_id = pipeline.move_and_pack_frames("proc1", vec![id])?;
    let update = get_update();
    pipeline.add_batched_frame_update(batch_id, id, update)?;
    pipeline.apply_updates(batch_id)?;
    pipeline.clear_updates(batch_id)?;
    let (frame, _) = pipeline.get_batched_frame(batch_id, id)?;
    frame.get_attribute("update", "attribute").unwrap();
    Ok(())
}

#[test]
fn test_sampling() -> Result<(), PipelineError> {
    install_tracer();

    let mut pipeline = create_pipeline()?;
    pipeline.set_sampling_period(2)?;

    let id = pipeline.add_frame("input", gen_frame())?;
    let (_frame, ctx) = pipeline.get_independent_frame(id)?;
    assert_eq!(ctx.trace_id(), 0);

    let id = pipeline.add_frame("input", gen_frame())?;
    let (_frame, ctx) = pipeline.get_independent_frame(id)?;
    assert_ne!(ctx.trace_id(), 0);

    let id = pipeline.add_frame("input", gen_frame())?;
    let (_frame, ctx) = pipeline.get_independent_frame(id)?;
    assert_eq!(ctx.trace_id(), 0);

    let id = pipeline.add_frame("input", gen_frame())?;
    let (_frame, ctx) = pipeline.get_independent_frame(id)?;
    assert_ne!(ctx.trace_id(), 0);

    Ok(())
}

#[test]
fn test_no_tracing() -> Result<(), PipelineError> {
    install_tracer();

    let mut pipeline = create_pipeline()?;
    pipeline.set_sampling_period(0)?;

    let id = pipeline.add_frame("input", gen_frame())?;
    let (_frame, ctx) = pipeline.get_independent_frame(id)?;
    assert_eq!(ctx.trace_id(), 0);

    let id = pipeline.add_frame("input", gen_frame())?;
    let (_frame, ctx) = pipeline.get_independent_frame(id)?;
    assert_eq!(ctx.trace_id(), 0);

    Ok(())
}

#[test]
fn test_tracing_every() -> Result<(), PipelineError> {
    install_tracer();

    let mut pipeline = create_pipeline()?;
    pipeline.set_sampling_period(1)?;

    let id = pipeline.add_frame("input", gen_frame())?;
    let (_frame, ctx) = pipeline.get_independent_frame(id)?;
    assert_ne!(ctx.trace_id(), 0);

    let id = pipeline.add_frame("input", gen_frame())?;
    let (_frame, ctx) = pipeline.get_independent_frame(id)?;
    assert_ne!(ctx.trace_id(), 0);

    Ok(())
}
