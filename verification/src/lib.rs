//! Press grouping for fighting-game controllers.
//!
//! Two buttons meant as one chord rarely go down in the same instant. The
//! library holds the rising edge of an attack for a few milliseconds so that
//! its partner can join it, and reports both together. Around that delay line
//! stand the pieces a controller bridge needs: input decoding, settings,
//! telemetry, virtual pad reports and the release updater's checks.
//!
//! The button word is a `u16` in the layout of an XInput pad throughout.

pub mod bits;
pub mod bulk;
pub mod button;
pub mod channel;
pub mod cli;
pub mod config;
pub mod controller;
pub mod ctl;
pub mod dinput;
pub mod engine;
pub mod evdev;
pub mod game_window;
pub mod gameinstall;
pub mod gip;
pub mod hid;
pub mod hidhide;
pub mod hook;
pub mod input;
pub mod install;
pub mod latched;
pub mod logo;
pub mod monitor;
pub mod names;
pub mod notices;
pub mod pad;
pub mod persist;
pub mod pollprobe;
pub mod probe;
pub mod ranks;
pub mod registry;
pub mod report;
pub mod rt;
pub mod scan;
pub mod screen;
pub mod setup;
pub mod source;
pub mod state;
pub mod stats;
pub mod sync_history;
pub mod sync_laws;
pub mod sync_service;
pub mod sync_window;
pub mod telemetry;
pub mod tester;
pub mod text;
pub mod tray;
pub mod uapi;
pub mod uinput;
pub mod updater;
pub mod upgrade;
pub mod winusb;
