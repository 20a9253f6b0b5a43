//! A gateway that routes chat and completion requests to one of several
//! backend LLM providers: the decisions of the request path, stated and
//! proved.

pub mod auth;
pub mod cache;
pub mod canonical;
pub mod circuitbreaker;
pub mod client;
pub mod config;
pub mod error;
pub mod health;
pub mod json;
pub mod loadbalance;
pub mod logging;
pub mod metrics;
pub mod nim;
pub mod ratelimit;
pub mod retry;
pub mod router;
pub mod text;
pub mod transport;
