//! Core of a pipeline-driven DNS forwarder: quick wire parsers, routing
//! configuration and its checks, request and response predicates, the
//! request- and response-phase decisions, the response cache with
//! single-flight, adaptive admission, and hot-domain prefetching.

pub mod bindings;
pub mod cache;
pub mod cname;
pub mod config;
pub mod engine;
pub mod flow;
pub mod matcher;
pub mod prefetch;
pub mod wire;
