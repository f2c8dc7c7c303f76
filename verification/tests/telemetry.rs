use opentelemetry::global;
use opentelemetry::trace::TraceContextExt;
use opentelemetry_sdk::trace::SdkTracerProvider;
use savant_core::telemetry::TelemetryContext;

fn trace_id_of(ctx: &opentelemetry::Context) -> u128 {
    u128::from_be_bytes(ctx.span().span_context().trace_id().to_bytes())
}

#[test]
fn the_untraced_context_has_no_trace_and_hands_out_the_default_context() {
    let none = TelemetryContext::untraced();
    assert!(!none.is_traced());
    assert_eq!(none.trace_id(), 0);
    assert_eq!(trace_id_of(&none.context()), 0);
    assert!(!none.context().has_active_span());
    none.end();
    let copy = none.clone();
    assert_eq!(copy.trace_id(), 0);
}

#[test]
fn a_root_span_of_an_installed_tracer_is_traced() {
    global::set_tracer_provider(SdkTracerProvider::builder().build());
    let root = TelemetryContext::root("root");
    assert!(root.is_traced());
    assert_ne!(root.trace_id(), 0);
    assert_eq!(trace_id_of(&root.context()), root.trace_id());
}

#[test]
fn a_span_under_a_traced_context_belongs_to_its_trace() {
    global::set_tracer_provider(SdkTracerProvider::builder().build());
    let root = TelemetryContext::root("root");
    let child = root.nested("child");
    assert!(child.is_traced());
    assert_eq!(child.trace_id(), root.trace_id());
    assert!(child.context().has_active_span());
    let grandchild = child.nested("grandchild");
    assert_eq!(grandchild.trace_id(), root.trace_id());
    child.end();
    let copy = child.clone();
    assert_eq!(copy.trace_id(), child.trace_id());
    assert_eq!(trace_id_of(&copy.context()), child.trace_id());
}

#[test]
fn without_a_tracer_a_root_span_has_no_trace_and_nothing_is_opened_under_it() {
    let root = TelemetryContext::root("root");
    assert!(!root.is_traced());
    let child = root.nested("child");
    assert!(!child.is_traced());
    assert_eq!(child.trace_id(), 0);
    assert!(!child.context().has_active_span());
}

#[test]
fn a_context_is_taken_with_the_trace_id_that_it_has() {
    global::set_tracer_provider(SdkTracerProvider::builder().build());
    let root = TelemetryContext::root("root");
    let taken = TelemetryContext::from_context(root.context());
    assert_eq!(taken.trace_id(), root.trace_id());
    let plain = TelemetryContext::from_context(opentelemetry::Context::default());
    assert!(!plain.is_traced());
    let given = TelemetryContext::with_trace_id(opentelemetry::Context::default(), 7);
    assert_eq!(given.trace_id(), 7);
    assert!(given.is_traced());
}
