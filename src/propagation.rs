//! Decoding a trace context out of a header carrier, and writing one into a
//! fresh carrier, through the W3C trace-context propagator.
use crate::carrier::HeaderCarrier;
use crate::traceparent::{
    decode_traceparent, encode_traceparent, fixed_shape, has_fixed_shape, lemma_encode_fixed_shape,
    lemma_pow16_bounds, lemma_traceparent_round_trip,
};
use opentelemetry::propagation::TextMapPropagator;
use opentelemetry::sdk::propagation::TraceContextPropagator;
use opentelemetry::trace::{SpanContext, SpanId, TraceContextExt, TraceFlags, TraceId, TraceState};
use std::collections::HashMap;
use vstd::prelude::*;

verus! {

/// The identity of a remote parent: trace id, parent span id and sampled flag.
#[derive(Clone, Copy, Debug, PartialEq, Eq, Structural)]
pub struct TraceContext {
    pub trace_id: u128,
    pub span_id: u64,
    pub sampled: bool,
}

pub open spec fn traceparent_key() -> Seq<char> {
    "traceparent"@
}

pub open spec fn tracestate_key() -> Seq<char> {
    "tracestate"@
}

/// The `traceparent` value of a carrier; an absent header reads as empty.
pub open spec fn traceparent_value(c: Map<Seq<char>, Seq<char>>) -> Seq<char> {
    if c.contains_key(traceparent_key()) {
        c[traceparent_key()]
    } else {
        Seq::empty()
    }
}

/// The context the propagator decodes out of a carrier, `None` for the empty
/// context.
pub open spec fn decoded_context(c: Map<Seq<char>, Seq<char>>) -> Option<TraceContext> {
    match decode_traceparent(traceparent_value(c)) {
        Some((t, p, s)) => Some(TraceContext { trace_id: t, span_id: p, sampled: s }),
        None => None,
    }
}

/// The context a carrier propagates: what the propagator decodes, where the
/// `traceparent` value has the fixed shape; the empty context otherwise.
pub open spec fn extracted_context(c: Map<Seq<char>, Seq<char>>) -> Option<TraceContext> {
    if fixed_shape(traceparent_value(c)) {
        decoded_context(c)
    } else {
        None
    }
}

/// A context with a non-zero trace id and a non-zero span id.
pub open spec fn is_valid_context(ctx: TraceContext) -> bool {
    ctx.trace_id != 0 && ctx.span_id != 0
}

/// The headers the propagator writes for a context: `traceparent` and an
/// empty `tracestate` for a valid one, nothing for an invalid one.
pub open spec fn injected_headers(ctx: TraceContext) -> Map<Seq<char>, Seq<char>> {
    if is_valid_context(ctx) {
        map![
            traceparent_key() => encode_traceparent(ctx.trace_id, ctx.span_id, ctx.sampled),
            tracestate_key() => Seq::empty(),
        ]
    } else {
        Map::empty()
    }
}

/// Relies on `TraceContextPropagator::extract_with_context` (opentelemetry_sdk)
/// over an empty context: it reads the `traceparent` header through the
/// carrier and yields a context holding the decoded remote span context, or
/// the empty context unchanged, whose span context has zero ids and no flags.
/// Returned are that span context's trace id, span id and `is_sampled`.
#[verifier::external_body]
fn propagator_extract(carrier: &HeaderCarrier) -> (r: (u128, u64, bool))
    requires
        carrier.wf(),
    ensures
        match decode_traceparent(traceparent_value(carrier@)) {
            Some((t, p, s)) => r == (t, p, s),
            None => r == (0u128, 0u64, false),
        },
{
    let headers: HashMap<String, String> = carrier.entries.iter().cloned().collect();
    let cx = TraceContextPropagator::new().extract_with_context(&opentelemetry::Context::new(), &headers);
    let span = cx.span();
    let sc = span.span_context();
    (u128::from_be_bytes(sc.trace_id().to_bytes()), u64::from_be_bytes(sc.span_id().to_bytes()), sc.is_sampled())
}

/// Relies on `TraceContextPropagator::inject_context` (opentelemetry_sdk) over
/// a context holding the given remote span context with an empty trace state:
/// a valid one is written as `traceparent` and `tracestate` headers, an
/// invalid one writes nothing.
#[verifier::external_body]
fn propagator_inject(ctx: &TraceContext) -> (r: HeaderCarrier)
    ensures
        r.wf(),
        r@ == injected_headers(*ctx),
{
    let flags = TraceFlags::default().with_sampled(ctx.sampled);
    let sc = SpanContext::new(TraceId::from(ctx.trace_id), SpanId::from(ctx.span_id), flags, true, TraceState::default());
    let cx = opentelemetry::Context::new().with_remote_span_context(sc);
    let mut headers: HashMap<String, String> = HashMap::new();
    TraceContextPropagator::new().inject_context(&cx, &mut headers);
    HeaderCarrier { entries: headers.into_iter().collect() }
}

/// Decodes the trace context that a carrier propagates. A missing or
/// malformed `traceparent` is no error: it gives `None`, the empty context.
/// A value outside the fixed shape `%02x-%032x-%016x-%02x` is malformed,
/// whatever the propagator would make of it; one of that shape is decoded by
/// the propagator, which also rejects an unknown version `ff`, zero ids, and a
/// flags byte above `02` under version `00`.
pub fn extract_context(carrier: &HeaderCarrier) -> (r: Option<TraceContext>)
    requires
        carrier.wf(),
    ensures
        r == extracted_context(carrier@),
        r matches Some(ctx) ==> is_valid_context(ctx),
{
    proof {
        lemma_pow16_bounds();
    }
    let shaped = match carrier.get("traceparent") {
        Some(v) => has_fixed_shape(v),
        None => false,
    };
    let (trace_id, span_id, sampled) = propagator_extract(carrier);
    if shaped && trace_id != 0 && span_id != 0 {
        Some(TraceContext { trace_id, span_id, sampled })
    } else {
        None
    }
}

/// Writes a trace context into a fresh carrier, as the propagator encodes it.
pub fn inject_context(ctx: &TraceContext) -> (r: HeaderCarrier)
    ensures
        r.wf(),
        r@ == injected_headers(*ctx),
{
    propagator_inject(ctx)
}

/// Writing a valid context into a carrier and decoding that carrier gives
/// back the same trace id, parent span id and sampled flag.
pub proof fn lemma_inject_then_extract(ctx: TraceContext)
    requires
        is_valid_context(ctx),
    ensures
        extracted_context(injected_headers(ctx)) == Some(ctx),
{
    lemma_traceparent_round_trip(ctx.trace_id, ctx.span_id, ctx.sampled);
    lemma_encode_fixed_shape(ctx.trace_id, ctx.span_id, ctx.sampled);
    reveal_strlit("traceparent");
    reveal_strlit("tracestate");
    assert(traceparent_key() != tracestate_key()) by {
        assert(traceparent_key().len() != tracestate_key().len());
    };
    assert(traceparent_value(injected_headers(ctx)) == encode_traceparent(
        ctx.trace_id,
        ctx.span_id,
        ctx.sampled,
    ));
}

/// A carrier without a `traceparent` header, the empty one included, decodes
/// to the empty context.
pub proof fn lemma_no_traceparent_is_empty(c: Map<Seq<char>, Seq<char>>)
    requires
        !c.contains_key(traceparent_key()),
    ensures
        extracted_context(c) is None,
{
}

/// A `traceparent` value outside the fixed shape `%02x-%032x-%016x-%02x`: a
/// wrong number of fields, a field of the wrong width, or a character that is
/// no lowercase hex digit.
pub open spec fn is_malformed(h: Seq<char>) -> bool {
    !fixed_shape(h)
}

/// Decoding a malformed `traceparent` fails silently: the carrier decodes to
/// the empty context.
pub proof fn lemma_malformed_is_empty(c: Map<Seq<char>, Seq<char>>)
    requires
        is_malformed(traceparent_value(c)),
    ensures
        extracted_context(c) is None,
{
}

} // verus!
