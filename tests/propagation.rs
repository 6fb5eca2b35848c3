use traceprop::carrier::HeaderCarrier;
use traceprop::propagation::{extract_context, inject_context, TraceContext};
use traceprop::scenario::{plan_scenario, root_parent, SpanParent};
use traceprop::traceparent::has_fixed_shape;

const HEADER: &str = "00-d92b48609ff5c2a7952d45bd6c6a2802-a2b6ccc696a3a41f-01";

fn carrier_of(pairs: &[(&str, &str)]) -> HeaderCarrier {
    let mut c = HeaderCarrier::new();
    for (k, v) in pairs {
        c.insert(k.to_string(), v.to_string());
    }
    c
}

fn expected() -> TraceContext {
    TraceContext {
        trace_id: 0xd92b48609ff5c2a7952d45bd6c6a2802,
        span_id: 0xa2b6ccc696a3a41f,
        sampled: true,
    }
}

fn decode(header: &str) -> Option<TraceContext> {
    extract_context(&carrier_of(&[("traceparent", header)]))
}

#[test]
fn empty_carrier_decodes_to_nothing() {
    assert_eq!(extract_context(&HeaderCarrier::new()), None);
}

#[test]
fn unrelated_headers_decode_to_nothing() {
    let c = carrier_of(&[("foo", "bar"), ("tracestate", "a=b"), ("Traceparent", HEADER)]);
    assert_eq!(extract_context(&c), None);
}

#[test]
fn populated_carrier_decodes_header() {
    let c = carrier_of(&[("traceparent", HEADER)]);
    assert_eq!(extract_context(&c), Some(expected()));
}

#[test]
fn unsampled_flag_decodes_false() {
    let got = decode("00-d92b48609ff5c2a7952d45bd6c6a2802-a2b6ccc696a3a41f-00");
    assert_eq!(got, Some(TraceContext { sampled: false, ..expected() }));
}

#[test]
fn surrounding_whitespace_is_rejected() {
    assert_eq!(decode("  00-d92b48609ff5c2a7952d45bd6c6a2802-a2b6ccc696a3a41f-01\t"), None);
}

#[test]
fn later_version_with_more_fields_is_rejected() {
    let got = decode("01-d92b48609ff5c2a7952d45bd6c6a2802-a2b6ccc696a3a41f-09-extra");
    assert_eq!(got, None);
}

#[test]
fn later_version_of_fixed_shape_decodes() {
    let got = decode("01-d92b48609ff5c2a7952d45bd6c6a2802-a2b6ccc696a3a41f-09");
    assert_eq!(got, Some(expected()));
}

#[test]
fn short_fields_are_rejected() {
    assert_eq!(decode("00-1-1-01"), None);
    assert_eq!(decode("0-d92b48609ff5c2a7952d45bd6c6a2802-a2b6ccc696a3a41f-01"), None);
}

#[test]
fn signed_or_terminated_fields_are_rejected() {
    assert_eq!(decode("00-+92b48609ff5c2a7952d45bd6c6a2802-a2b6ccc696a3a41f-01"), None);
    assert_eq!(decode("00-d92b48609ff5c2a7952d45bd6c6a2802-a2b6ccc696a3a41f-01-"), None);
}

#[test]
fn fixed_shape_check() {
    assert!(has_fixed_shape(HEADER));
    assert!(!has_fixed_shape("00-1-1-01"));
    assert!(!has_fixed_shape("00-d92b48609ff5c2a7952d45bd6c6a2802_a2b6ccc696a3a41f-01"));
    assert!(!has_fixed_shape("00-d92b48609ff5c2a7952d45bd6c6a2802-a2b6ccc696a3a41F-01"));
}

#[test]
fn malformed_headers_decode_to_nothing() {
    let bad = [
        "",
        "garbage",
        "00-d92b48609ff5c2a7952d45bd6c6a2802-a2b6ccc696a3a41f",
        "00-d92b48609ff5c2a7952d45bd6c6a2802-a2b6ccc696a3a41f-",
        "00-d92b48609ff5c2a7952d45bd6c6a2802-a2b6ccc696a3a41f-01-extra",
        "00-z92b48609ff5c2a7952d45bd6c6a2802-a2b6ccc696a3a41f-01",
        "00-d92b48609ff5c2a7952d45bd6c6a2802-q2b6ccc696a3a41f-01",
        "00-D92B48609FF5C2A7952D45BD6C6A2802-a2b6ccc696a3a41f-01",
        "00-d92b48609ff5c2a7952d45bd6c6a2802-a2b6ccc696a3a41f-09",
        "ff-d92b48609ff5c2a7952d45bd6c6a2802-a2b6ccc696a3a41f-01",
        "00-ffd92b48609ff5c2a7952d45bd6c6a2802-a2b6ccc696a3a41f-01",
        "00-00000000000000000000000000000000-a2b6ccc696a3a41f-01",
        "00-d92b48609ff5c2a7952d45bd6c6a2802-0000000000000000-01",
    ];
    for h in bad {
        assert_eq!(decode(h), None, "{h}");
    }
}

#[test]
fn inject_writes_traceparent() {
    let c = inject_context(&expected());
    assert_eq!(c.get("traceparent"), Some(HEADER));
    assert_eq!(c.get("tracestate"), Some(""));
    assert_eq!(c.len(), 2);
}

#[test]
fn inject_pads_small_ids() {
    let c = inject_context(&TraceContext { trace_id: 0xab, span_id: 0xcd, sampled: false });
    assert_eq!(
        c.get("traceparent"),
        Some("00-000000000000000000000000000000ab-00000000000000cd-00")
    );
}

#[test]
fn inject_invalid_context_writes_nothing() {
    let c = inject_context(&TraceContext { trace_id: 0, span_id: 7, sampled: true });
    assert_eq!(c.len(), 0);
}

#[test]
fn inject_then_extract_round_trips() {
    for ctx in [
        expected(),
        TraceContext { trace_id: 1, span_id: 1, sampled: false },
        TraceContext { trace_id: u128::MAX, span_id: u64::MAX, sampled: true },
    ] {
        assert_eq!(extract_context(&inject_context(&ctx)), Some(ctx));
    }
}

#[test]
fn scenario_without_carrier_has_no_parent() {
    assert_eq!(root_parent(None), None);
}

#[test]
fn scenario_with_empty_carrier_has_no_parent() {
    assert_eq!(root_parent(Some(&HeaderCarrier::new())), None);
}

#[test]
fn scenario_with_header_has_remote_parent() {
    let c = carrier_of(&[("traceparent", HEADER)]);
    let got = root_parent(Some(&c)).unwrap();
    assert_eq!(got.trace_id, 0xd92b48609ff5c2a7952d45bd6c6a2802);
    assert_eq!(got.span_id, 0xa2b6ccc696a3a41f);
}

#[test]
fn child_parent_is_always_root() {
    let empty = HeaderCarrier::new();
    let full = carrier_of(&[("traceparent", HEADER)]);
    for carrier in [None, Some(&empty), Some(&full)] {
        let plan = plan_scenario(carrier);
        assert_eq!(plan.len(), 2);
        assert_eq!(plan[0].name, "Root Span");
        assert_eq!(plan[1].name, "Child 1");
        assert_eq!(plan[1].parent, Some(SpanParent::Local(0)));
    }
    assert_eq!(plan_scenario(None)[0].parent, None);
    assert_eq!(plan_scenario(Some(&empty))[0].parent, None);
    assert_eq!(plan_scenario(Some(&full))[0].parent, Some(SpanParent::Remote(expected())));
}
