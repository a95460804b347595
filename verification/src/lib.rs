//! Native shell core for a desktop chat application.
//!
//! The heart of the library is the connection manager: a registry of live
//! sessions with a command surface (`connect`, `send`, `disconnect`,
//! `destroy`), an inbound event pump that classifies session events into
//! UI-visible state changes, and a FIFO outbound frame queue. Around it
//! stand the filename helpers used when saving downloads and the native
//! notification builder.

pub mod connection;
pub mod download;
pub mod notification;
pub mod text;
