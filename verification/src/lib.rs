//! Verified core of an OpenRGB-compatible SDK server for VIA per-key RGB keyboards:
//! keyboard definitions, protocol constants and the byte layout of the
//! OpenRGB network protocol.

pub mod consts;
pub mod text;
pub mod utils;
pub mod condition;
pub mod config;
pub mod handlers;
pub mod keyboards;
