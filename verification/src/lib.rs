//! Tunnel connection registry and reverse-proxy core.
//!
//! A subdomain-based reverse proxy multiplexes inbound HTTP traffic across
//! dynamically provisioned network tunnels, each backed by an external tunnel
//! agent process.  This crate holds the verified core: resolving an inbound
//! hostname to a routing token, tracking tunnel state in a registry, driving
//! the agent's start/stop/list control plane, filtering hop-by-hop headers,
//! and reclaiming idle tunnels under a time-to-live policy.  The unverified
//! shell around it performs the actual network and process I/O.

pub mod cleanup;
pub mod errors;
pub mod forwarder;
pub mod headers;
pub mod models;
pub mod naming;
pub mod payment;
pub mod registry;
pub mod router;
pub mod strutil;
pub mod supervisor;

pub use errors::ProxyError;
