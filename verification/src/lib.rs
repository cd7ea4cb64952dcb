//! VoxAlic core: the verified logic of a Warframe companion (world-state
//! parsing, subscription alerts, the mission timer state machine and the
//! Warframe.Market helpers).

pub mod text;
pub mod clock;
pub mod decimal;
pub mod json;
pub mod models;
pub mod worldstate;
pub mod config;
pub mod keyset;
pub mod alerts;
pub mod timer;
pub mod textscan;
pub mod sorting;
pub mod market;
pub mod orders;
pub mod auth;
pub mod channel;
pub mod hotkey;
pub mod frames;
pub mod notify;
pub mod i18n;
pub mod windows;
pub mod board;
pub mod tray;
pub mod feedback;
