//! Acquisition core for the CT220S curve tracer: payload extraction, frame
//! reassembly, sample normalisation and the shared per-channel curve state.
pub mod config;
pub mod payload;
pub mod normalize;
pub mod frame;
pub mod curve;
pub mod capture;
pub mod command;
pub mod acquire;
