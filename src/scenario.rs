//! One propagation scenario: the spans it opens and the parent of each.
use crate::carrier::HeaderCarrier;
use crate::propagation::{
    extract_context, extracted_context, lemma_no_traceparent_is_empty, traceparent_key, TraceContext,
};
use vstd::prelude::*;

verus! {

/// Where a span's parent comes from.
#[derive(Clone, Copy, Debug, PartialEq, Eq, Structural)]
pub enum SpanParent {
    /// A context decoded from an inbound carrier.
    Remote(TraceContext),
    /// An earlier span of the same plan, by its position.
    Local(usize),
}

/// A span to open: its name and its parent, if any.
pub struct PlannedSpan {
    pub name: String,
    pub parent: Option<SpanParent>,
}

pub open spec fn root_span_name() -> Seq<char> {
    "Root Span"@
}

pub open spec fn child_span_name() -> Seq<char> {
    "Child 1"@
}

/// The root span's parent: nothing without a carrier, else what the carrier
/// decodes to.
pub open spec fn root_parent_of(carrier: Option<Map<Seq<char>, Seq<char>>>) -> Option<TraceContext> {
    match carrier {
        None => None,
        Some(c) => extracted_context(c),
    }
}

pub open spec fn carrier_view(carrier: Option<&HeaderCarrier>) -> Option<Map<Seq<char>, Seq<char>>> {
    match carrier {
        None => None,
        Some(c) => Some(c@),
    }
}

/// Decides the root span's parent. A supplied carrier, even an empty one, is
/// run through the propagator; only a decoded context becomes a parent.
pub fn root_parent(carrier: Option<&HeaderCarrier>) -> (r: Option<TraceContext>)
    requires
        carrier matches Some(c) ==> c.wf(),
    ensures
        r == root_parent_of(carrier_view(carrier)),
{
    match carrier {
        None => None,
        Some(c) => extract_context(c),
    }
}

/// The spans of one scenario, in the order they are entered: the root span,
/// whose parent is [`root_parent`], then one child span whose parent is the
/// root span, whatever the root's own parent is. They close in reverse order.
pub fn plan_scenario(carrier: Option<&HeaderCarrier>) -> (r: Vec<PlannedSpan>)
    requires
        carrier matches Some(c) ==> c.wf(),
    ensures
        r@.len() == 2,
        r@[0].name@ == root_span_name(),
        r@[0].parent == (match root_parent_of(carrier_view(carrier)) {
            Some(ctx) => Some(SpanParent::Remote(ctx)),
            None => None::<SpanParent>,
        }),
        r@[1].name@ == child_span_name(),
        r@[1].parent == Some(SpanParent::Local(0)),
{
    let parent = match root_parent(carrier) {
        Some(ctx) => Some(SpanParent::Remote(ctx)),
        None => None,
    };
    let mut spans: Vec<PlannedSpan> = Vec::new();
    spans.push(PlannedSpan { name: "Root Span".to_string(), parent });
    spans.push(PlannedSpan { name: "Child 1".to_string(), parent: Some(SpanParent::Local(0)) });
    spans
}

/// A carrier with no `traceparent` header, the empty carrier included, gives
/// the root span the same parent as no carrier at all: none.
pub proof fn lemma_unrecognized_carrier_as_none(c: Map<Seq<char>, Seq<char>>)
    requires
        !c.contains_key(traceparent_key()),
    ensures
        root_parent_of(Some(c)) == root_parent_of(None),
        root_parent_of(Some(c)) is None,
{
    lemma_no_traceparent_is_empty(c);
}

} // verus!
