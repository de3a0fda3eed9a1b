//! Telemetry-capture and delivery core of an API-traffic observability agent.
//!
//! Per-exchange capture units build an event record incrementally; a singleton
//! aggregator batches serialized events and prepares outbound deliveries to a
//! remote collector. A governance rules engine evaluates regex policies against
//! request records, and an ETag-tracked cache debounces remote configuration.

pub mod config;
pub mod event;
pub mod headers;
pub mod http_callback;
pub mod http_context;
pub mod ip;
pub mod root_context;
pub mod rules;
pub mod text;
pub mod update_manager;
