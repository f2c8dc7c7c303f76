//! Tracing contexts as the pipeline sees them: a context of the tracing
//! library together with the trace id that was read from it.

use vstd::prelude::*;
use opentelemetry::trace::{SpanBuilder, TraceContextExt, Tracer};

verus! {

/// The name under which the pipeline asks for its tracer.
pub const TRACER_NAME: &'static str = "video_pipeline";

/// `opentelemetry::Context`, carried through as an opaque value.
#[verifier::external_type_specification]
#[verifier::external_body]
pub struct ExContext(opentelemetry::Context);

/// `Context::default`: the context that is handed out where a context that
/// belongs to no trace is asked for one. Nothing is claimed of the result.
#[verifier::external_body]
fn default_context() -> opentelemetry::Context {
    opentelemetry::Context::default()
}

/// `Context::clone`: the copy is the same context as the one it was made
/// of, and shares its span.
#[verifier::external_body]
fn clone_context(ctx: &opentelemetry::Context) -> (r: opentelemetry::Context)
    ensures
        r == *ctx,
{
    ctx.clone()
}

/// The trace id of the span in the context (`TraceContextExt::span`,
/// `SpanRef::span_context`, `SpanContext::trace_id`), as a number. Nothing is
/// claimed of the result.
#[verifier::external_body]
fn trace_id_of(ctx: &opentelemetry::Context) -> u128 {
    u128::from_be_bytes(ctx.span().span_context().trace_id().to_bytes())
}

/// `Tracer::build_with_context` on the global tracer of the given name, and
/// `Context::current_with_span` on the span that it made. Nothing is claimed
/// of the result: what comes back is up to the installed tracer.
#[verifier::external_body]
fn start_span(tracer: &str, name: &str, parent: &opentelemetry::Context) -> opentelemetry::Context {
    let span = opentelemetry::global::tracer(tracer.to_string()).build_with_context(
        SpanBuilder::from_name(name.to_string()),
        parent,
    );
    opentelemetry::Context::current_with_span(span)
}

/// `Tracer::in_span` on the global tracer of the given name, handing out the
/// context in which the new span is active. Nothing is claimed of the result.
#[verifier::external_body]
fn start_root_span(tracer: &str, name: &str) -> opentelemetry::Context {
    opentelemetry::global::tracer(tracer.to_string()).in_span(name.to_string(), |cx| cx)
}

/// `SpanRef::end` on the span of the context.
#[verifier::external_body]
fn end_span(ctx: &opentelemetry::Context) {
    ctx.span().end()
}

/// A tracing context with its trace id. A trace id of zero is the tracing
/// library's invalid trace. The context that belongs to no trace holds no
/// context of the tracing library at all: no span is ever opened under it,
/// and there is none to end.
pub struct TelemetryContext {
    ctx: Option<opentelemetry::Context>,
    trace_id: u128,
}

impl Clone for TelemetryContext {
    fn clone(&self) -> (r: Self)
        ensures
            r == *self,
    {
        let ctx = match &self.ctx {
            Some(ctx) => Some(clone_context(ctx)),
            None => None,
        };
        TelemetryContext { ctx, trace_id: self.trace_id }
    }
}

impl TelemetryContext {
    /// The trace id that was read from the context; zero where there is no
    /// context.
    pub closed spec fn spec_trace_id(&self) -> u128 {
        self.trace_id
    }

    /// The context of the tracing library, where there is one.
    pub closed spec fn spec_context(&self) -> Option<opentelemetry::Context> {
        self.ctx
    }

    /// Whether the context belongs to a trace: it holds a context of the
    /// tracing library whose trace id is not the invalid one.
    pub open spec fn traced(&self) -> bool {
        self.spec_context() is Some && self.spec_trace_id() != 0
    }

    /// The context that belongs to no trace: without a context of the
    /// tracing library, and with the invalid trace id.
    pub fn untraced() -> (r: Self)
        ensures
            r.spec_context() is None,
            r.spec_trace_id() == 0,
    {
        TelemetryContext { ctx: None, trace_id: 0 }
    }

    /// The context of the tracing library together with a trace id.
    pub fn with_trace_id(ctx: opentelemetry::Context, trace_id: u128) -> (r: Self)
        ensures
            r.spec_context() == Some(ctx),
            r.spec_trace_id() == trace_id,
    {
        TelemetryContext { ctx: Some(ctx), trace_id }
    }

    /// Takes a context of the tracing library and reads its trace id.
    pub fn from_context(ctx: opentelemetry::Context) -> (r: Self)
        ensures
            r.spec_context() == Some(ctx),
    {
        let trace_id = trace_id_of(&ctx);
        TelemetryContext::with_trace_id(ctx, trace_id)
    }

    #[verifier::when_used_as_spec(spec_trace_id)]
    pub fn trace_id(&self) -> (r: u128)
        ensures
            r == self.spec_trace_id(),
    {
        self.trace_id
    }

    pub fn is_traced(&self) -> (r: bool)
        ensures
            r == self.traced(),
    {
        self.ctx.is_some() && self.trace_id != 0
    }

    /// A copy of the context of the tracing library; where there is none,
    /// the default context of the tracing library.
    pub fn context(&self) -> (r: opentelemetry::Context)
        ensures
            self.spec_context() is Some ==> r == self.spec_context()->Some_0,
    {
        match &self.ctx {
            Some(ctx) => clone_context(ctx),
            None => default_context(),
        }
    }

    /// A new root span of the given name: the result holds the context that
    /// the installed tracer made for it, with the trace id that the context
    /// has.
    pub fn root(name: &str) -> (r: Self)
        ensures
            r.spec_context() is Some,
    {
        TelemetryContext::from_context(start_root_span(TRACER_NAME, name))
    }

    /// A span of the given name under this context. Under a context that is
    /// not traced no span is opened: the result is the context that belongs
    /// to no trace. Under a traced context the result holds the context that
    /// the installed tracer made for the new span, with the trace id that
    /// the context has.
    pub fn nested(&self, name: &str) -> (r: Self)
        ensures
            !self.traced() ==> r.spec_context() is None && r.spec_trace_id() == 0,
            self.traced() ==> r.spec_context() is Some,
    {
        match &self.ctx {
            Some(parent) => {
                if self.trace_id == 0 {
                    TelemetryContext::untraced()
                } else {
                    TelemetryContext::from_context(start_span(TRACER_NAME, name, parent))
                }
            },
            None => TelemetryContext::untraced(),
        }
    }

    /// Ends the span of the context, where there is a context.
    pub fn end(&self) {
        match &self.ctx {
            Some(ctx) => end_span(ctx),
            None => {},
        }
    }
}

/// Whether the frame with the given number, counted from one, gets a trace
/// of its own: with a positive period every frame whose number the period
/// divides, with any other period none. A number below one is no frame's.
pub fn is_sampled(period: i64, frame_number: i64) -> (r: bool)
    ensures
        r == (period > 0 && frame_number > 0 && frame_number % period == 0),
{
    period > 0 && frame_number > 0 && frame_number % period == 0
}

/// A `hashbrown::HashMap` from frame ids to tracing contexts. Verus does not look
/// inside: what it holds is `span_entries`.
#[verifier::external_body]
pub struct SpanMap {
    inner: hashbrown::HashMap<i64, TelemetryContext>,
}

/// The contexts that the map holds, by id.
pub uninterp spec fn span_entries(m: SpanMap) -> Map<i64, TelemetryContext>;

/// `HashMap::new`: a map that holds nothing.
#[verifier::external_body]
pub(crate) fn span_map_new() -> (r: SpanMap)
    ensures
        span_entries(r) == (Map::<i64, TelemetryContext>::empty()),
{
    SpanMap { inner: hashbrown::HashMap::new() }
}

/// `HashMap::get`: the context under the id, if the map has the id.
#[verifier::external_body]
pub(crate) fn span_map_get(m: &SpanMap, id: i64) -> (r: Option<&TelemetryContext>)
    ensures
        match r {
            Some(context) => span_entries(*m).contains_key(id) && *context == span_entries(*m)[id],
            None => !span_entries(*m).contains_key(id),
        },
{
    m.inner.get(&id)
}

/// `HashMap::insert`: the context stands under the id afterwards, the other
/// entries are untouched, and the context that stood there before comes back.
#[verifier::external_body]
pub(crate) fn span_map_insert(m: &mut SpanMap, id: i64, context: TelemetryContext) -> (r: Option<
    TelemetryContext,
>)
    ensures
        span_entries(*final(m)) == span_entries(*old(m)).insert(id, context),
        match r {
            Some(before) => span_entries(*old(m)).contains_key(id) && before == span_entries(
                *old(m),
            )[id],
            None => !span_entries(*old(m)).contains_key(id),
        },
{
    m.inner.insert(id, context)
}

/// `HashMap::remove`: the id is gone afterwards, the other entries are
/// untouched, and the context that stood under it comes back.
#[verifier::external_body]
pub(crate) fn span_map_remove(m: &mut SpanMap, id: i64) -> (r: Option<TelemetryContext>)
    ensures
        span_entries(*final(m)) == span_entries(*old(m)).remove(id),
        match r {
            Some(before) => span_entries(*old(m)).contains_key(id) && before == span_entries(
                *old(m),
            )[id],
            None => !span_entries(*old(m)).contains_key(id),
        },
{
    m.inner.remove(&id)
}

/// `HashMap::keys`, collected: every id of the map once, in no stated order.
#[verifier::external_body]
pub(crate) fn span_map_keys(m: &SpanMap) -> (r: Vec<i64>)
    ensures
        r@.no_duplicates() && r@.to_set() == span_entries(*m).dom(),
{
    m.inner.keys().copied().collect()
}

impl SpanMap {
    /// A map without contexts.
    pub fn new() -> (r: Self)
        ensures
            span_entries(r) == Map::<i64, TelemetryContext>::empty(),
    {
        span_map_new()
    }

    /// A copy of the context of the id.
    pub fn get(&self, id: i64) -> (r: Option<TelemetryContext>)
        ensures
            match r {
                Some(context) => span_entries(*self).contains_key(id) && context == span_entries(
                    *self,
                )[id],
                None => !span_entries(*self).contains_key(id),
            },
    {
        match span_map_get(self, id) {
            Some(context) => Some(context.clone()),
            None => None,
        }
    }

    /// The ids of the map, each once, in no stated order.
    pub fn ids(&self) -> (r: Vec<i64>)
        ensures
            r@.no_duplicates(),
            r@.to_set() == span_entries(*self).dom(),
    {
        span_map_keys(self)
    }
}

impl Clone for SpanMap {
    fn clone(&self) -> (r: Self)
        ensures
            span_entries(r) == span_entries(*self),
    {
        let ids = span_map_keys(self);
        let mut out = span_map_new();
        let mut i: usize = 0;
        while i < ids.len()
            invariant
                i <= ids.len(),
                ids@.to_set() == span_entries(*self).dom(),
                span_entries(out).dom() == ids@.take(i as int).to_set(),
                forall|id: i64| #[trigger]
                    span_entries(out).contains_key(id) ==> span_entries(out)[id] == span_entries(
                        *self,
                    )[id],
            decreases ids.len() - i,
        {
            let id = ids[i];
            assert(ids@.to_set().contains(id));
            proof {
                crate::id_sets::lemma_take_push_set(ids@, i as int);
            }
            match span_map_get(self, id) {
                Some(context) => {
                    let _ = span_map_insert(&mut out, id, context.clone());
                },
                None => {},
            }
            assert(span_entries(out).dom() =~= ids@.take(i as int + 1).to_set());
            i += 1;
        }
        assert(ids@.take(i as int) =~= ids@);
        assert(span_entries(out) =~= span_entries(*self));
        out
    }
}

} // verus!
