//! Serve a webcam as an NDI source on the local network: the decisions,
//! conversions and state machines, with their contracts.

pub mod audio;
pub mod capture;
pub mod engine;
pub mod headless;
pub mod jpeg;
pub mod json;
pub mod laws;
pub mod listing;
pub mod markers;
pub mod ndi;
pub mod order;
pub mod pipeline;
pub mod pixels;
pub mod preview;
pub mod probe;
pub mod pump;
pub mod sampling;
pub mod scans;
pub mod session;
pub mod single;
pub mod text;
pub mod tray;
pub mod web;
