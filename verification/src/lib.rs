//! Data model and terminal-text layout of a Clash / Mihomo dashboard, with
//! contracts checked by Verus.

pub mod cells;
pub mod style;
pub mod helper;
pub mod proxy;
pub mod config;
pub mod action;
pub mod group;
