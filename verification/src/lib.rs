//! Session-negotiation core of an RTSP-style media streaming server:
//! a verified text message codec, an H.264 elementary-stream framer,
//! a stream/session registry, and the method dispatch engine.
pub mod bytes;
pub mod codec;
pub mod engine;
pub mod framer;
pub mod laws;
pub mod registry;
