//! Request lifecycle and cancellable streaming dispatch for a file-management
//! service: request and response envelopes, the registries of running work,
//! the throttled progress emitter, the dispatcher's decisions, the ordering of
//! directory listings and the framing of the line-delimited channel.

pub mod types;
pub mod utils;
pub mod registry;
pub mod emitter;
pub mod listing;
pub mod lifecycle;
pub mod dispatch;
pub mod intake;
