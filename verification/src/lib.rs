//! A minimal WebSocket bridge library: an HTTP request-line and header
//! parser, the WebSocket opening-handshake computation, and a decoder for
//! the supported subset of WebSocket frames (unfragmented text frames with
//! short payloads, plus the close control frame).
//!
//! The library holds the protocol logic only; sockets, threads and the
//! output sink live with the caller.

pub mod frame;
pub mod http;
pub mod handshake;
pub mod conn;
