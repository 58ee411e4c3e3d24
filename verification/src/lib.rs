//! Control core of a small networked status appliance.
//!
//! The library decodes a shared analog button line into edge-triggered press
//! events, drives the lifecycle of a single remote event-stream session, and
//! reconciles remote state changes into a minimal stream of draw
//! instructions.  All hardware access, networking and time sources live
//! outside the library; the logic here is verified.

pub mod buttons;
pub mod display;
pub mod jsontext;
pub mod jsonval;
pub mod numbers;
pub mod orchestrator;
pub mod render;
pub mod session;
pub mod store;
pub mod text;
pub mod util;
