//! Correlation engine for software-delivery performance metrics.
//!
//! Three independently produced event streams — deployments, issues and
//! merged changes — are fetched from a log-query backend over a caller-given
//! time range. This crate holds the verified core: batching the range into
//! backend-sized windows, normalizing and deduplicating the raw streams,
//! detecting per-repository failure windows, and joining everything back
//! onto each deployment. Transport, routing and configuration live outside.

pub mod events;
pub mod gatherer;
pub mod normalize;
pub mod params;
pub mod rows;
pub mod service;
pub mod text;
pub mod vendor;
