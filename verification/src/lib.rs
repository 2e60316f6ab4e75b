//! A remote cache for Nx task artifacts: configuration, authentication,
//! rate limiting of auth failures, the layout and integrity checks of the
//! stores, and the replies of the cache endpoints.
pub mod auth;
pub mod cache;
pub mod config;
pub mod digest;
pub mod gate;
pub mod k8s;
pub mod laws;
pub mod text;
pub mod tracker;
