//! Trae support for a commit-attribution tool: the checkpoint preset that turns
//! an editor hook event into a checkpoint, and the installer that keeps the
//! editor's hook file in order.

pub mod error;
pub mod extras;
pub mod hooks;
pub mod installer;
pub mod json;
pub mod laws;
pub mod preset;
pub mod text;
pub mod transcript;
