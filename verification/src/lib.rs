//! A small GUI core: a widget tree with shared-handle semantics and a
//! translator that turns raw window-system messages into typed events.

pub mod error;
pub mod event;
pub mod geometry;
pub mod keyboard;
pub mod widget;
