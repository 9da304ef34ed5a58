//! Verified core of a Linux tray controller for Tailscale: status parsing,
//! exit-node selection, menu and tooltip contents, settings paths and the
//! tray icon bitmap.

pub mod text;
pub mod icon;
pub mod json;
pub mod config;
pub mod status;
pub mod tray;
pub mod menu;
pub mod pidfile;
pub mod indicator;
