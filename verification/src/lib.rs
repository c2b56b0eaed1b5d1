//! Verified building blocks of a bounded voice platform: RFC 4733 telephone
//! events, call identifiers and lifecycle, W3C trace context, bounded media
//! queues, G.711 codecs, PCM recording, a fixed-delay jitter buffer, the
//! caller/human bridge registry and its lifecycle synchronization, the
//! call-control registry with audio negotiation, SIP message rules and
//! decisions of the call engine, media-session decisions, DTMF relay clocks,
//! replay fact normalization, the differential fixture comparator and the
//! bounds and checks of the load and soak runs.

pub mod bridge;
pub mod call_api;
pub mod call_core;
pub mod differential;
pub mod dispatch;
pub mod dtmf;
pub mod engine;
pub mod jitter;
pub mod media;
pub mod media_time;
pub mod negotiation;
pub mod normalize;
pub mod recording;
pub mod relay;
pub mod runtime;
pub mod session;
pub mod smoke;
pub mod text;
pub mod trace;
