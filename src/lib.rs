//! A shell-event dispatcher: a catalog of handlers, interval timers and
//! wall-clock schedules keyed by event type, the producer loops that turn
//! them into events, and the consumer that binds events to jobs.
//!
//! - `catalog` and `jobs`: the durable catalog (`Database`), one entry per
//!   event type, ids renewed on every change, job rows and crash recovery.
//! - `store`: the in-memory store (`JobStore`) over the catalog: the mirror
//!   of handlers, the live timer and schedule records, warnings, job
//!   lifecycle, and reload.
//! - `producer`: the timer and schedule loops as state machines that retire
//!   when their id leaves the catalog.
//! - `consumer`: binding events to handlers and recording outcomes.
//! - `api`: the control-plane requests and responses.
//! - `access`: who may read and who may write.
//! - `models`, `ids`, `clock`, `text`, `error`: the data and its helpers.
pub mod access;
pub mod api;
pub mod catalog;
pub mod clock;
pub mod consumer;
pub mod error;
pub mod ids;
pub mod jobs;
pub mod models;
pub mod producer;
pub mod store;
pub mod text;
