//! Strict, bounded reverse-proxy configuration types, their validation, and
//! the pure request-matching rules of the proxy core.

pub mod text;
pub mod error;
pub mod naming;
pub mod net;
pub mod web;
pub mod map;
pub mod secret;
pub mod provider;
pub mod schema;
pub mod checks;
pub mod routing;
pub mod conflict;
pub mod middleware;
pub mod platform;
pub mod acme;
pub mod config;
pub mod route;
pub mod issuance;
pub mod node;
pub mod negotiate;
pub mod index;
pub mod request;
pub mod forwarding;
pub mod redact;
pub mod inflight;
pub mod revision;
pub mod discovery;
pub mod pipeline;
pub mod cors;
pub mod renewal;
pub mod lifecycle;
pub mod admission;
pub mod auth;
pub mod upstream;
pub mod stages;
