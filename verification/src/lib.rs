//! Verified core of the QSim external-service adapters: the time-bin
//! batching of shared simulation events, the message conversions for the
//! routing and event-sharing services, and the measurement bookkeeping.

pub mod flags;
pub mod ieee;
pub mod strings;
pub mod event_sharing;
pub mod ids;
pub mod profiling;
pub mod routing;
