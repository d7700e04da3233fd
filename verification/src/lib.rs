//! A gateway in front of an OpenAI-compatible server that shares a fixed number
//! of inference slots among projects.
//!
//! This library decides; it does no input or output of its own. It checks a
//! configuration ([`config`]), finds the project of a request ([`handlers`]),
//! keeps the queues and hands out the slots ([`queue`]), follows a chat
//! completion from its arrival to its reply ([`chat`]), turns a streamed
//! response into events ([`sse`]) and says which measurements change
//! ([`metrics`]).
//!
//! The rules that the scheduler follows are stated in [`schedule`]. What holds
//! of the whole, and what each operation means in plain terms, is stated and
//! proved in [`scheduling_laws`], [`queue_laws`], [`config_laws`],
//! [`request_laws`], [`stream_laws`], [`metrics_laws`] and [`text_laws`].
pub mod chat;
pub mod config;
pub mod config_laws;
pub mod handlers;
pub mod headers;
pub mod metrics;
pub mod metrics_laws;
pub mod name_map;
pub mod queue;
pub mod queue_laws;
pub mod request_laws;
pub mod schedule;
pub mod scheduling_laws;
pub mod sse;
pub mod stream_laws;
pub mod text;
pub mod text_laws;
