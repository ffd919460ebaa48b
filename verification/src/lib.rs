//! A small container-dashboard core library: session-based authentication
//! with lazy expiry, request gating, credential verification, and the pure
//! normalization and metric computations behind a container-engine client.

pub mod auth;
pub mod codec;
pub mod config;
pub mod credentials;
pub mod docker;
pub mod metrics;
pub mod models;
pub mod sort;
pub mod strutil;
pub mod web;
