//! Inbound W3C trace-context propagation: a read-only header carrier, the
//! `traceparent` grammar that the propagator decodes, and the plan of the
//! root/child span pair that one propagation scenario produces.

pub mod carrier;
pub mod propagation;
pub mod scenario;
pub mod traceparent;
