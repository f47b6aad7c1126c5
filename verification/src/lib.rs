//! The logic of Thunderboard, a tray-resident soundboard: the configuration and
//! its migration, the pitch walk, the shortcuts and the keyboard layout, folder
//! profiles, imports, the list of devices, and where the window opens.
//!
//! Everything here computes on plain values. Numbers with a fraction are carried
//! as bit patterns ([`Single`]); the little arithmetic on them is the caller's.

pub mod config;
pub mod devices;
pub mod folder;
pub mod hotkeys;
pub mod ids;
pub mod import;
pub mod launch;
pub mod layout;
pub mod migrate;
pub mod paths;
pub mod pitch;
pub mod place;
pub mod single;
pub mod text;
pub mod window;

pub use crate::config::{Config, Pitch, Profile, Sound};
pub use crate::single::Single;
