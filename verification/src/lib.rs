//! The logic of a shared live drawing canvas: the server's registry of
//! connected clients, the segments it keeps and replays, what it sends to
//! whom, and the pen that turns mouse events into strokes and segments.
pub mod message;
pub mod registry;
pub mod ids;
pub mod board;
pub mod relay;
pub mod pen;
