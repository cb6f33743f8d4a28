//! Request routing, streaming and guardrail logic of an AI model gateway.
//!
//! - [`json`]: JSON values as the logic reads them.
//! - [`metrics`], [`metric`]: metrics snapshots and ranking models by a metric.
//! - [`routing`]: routers and their strategies.
//! - [`executor`]: resolving a request through nested routers.
//! - [`stream`]: model events to chat deltas and server-sent events.
//! - [`guardrails`], [`llm_judge`]: guards and the judge-model guard.
//! - [`mcp`], [`gateway`]: hosted tool servers and HTTP settings.

pub mod executor;
pub mod gateway;
pub mod guardrails;
pub mod json;
pub mod llm_judge;
pub mod mcp;
pub mod metric;
pub mod metrics;
pub mod routing;
pub mod stream;
