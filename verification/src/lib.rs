//! Medienzeit: the hardware-free half of a media-time box for children's devices.
use vstd::prelude::*;

pub mod balance;
pub mod civil;
pub mod chime;
pub mod cli;
pub mod clock;
pub mod config;
pub mod control;
pub mod docking;
pub mod fixed;
pub mod flashlock;
pub mod form;
pub mod fritzbox;
pub mod http;
pub mod journal;
pub mod notify;
pub mod panel;
pub mod pn5180;
pub mod policy;
pub mod reader;
pub mod room;
pub mod rtc;
pub mod scan;
pub mod screen;
pub mod settings;
pub mod shared;
pub mod sim;
pub mod sntp;
pub mod state;
pub mod storage;
pub mod text;
pub mod timing;
pub mod tr064;
pub mod ui;
pub mod web;
pub mod wire;

pub use civil::LocalDateTime;
pub use policy::{AwayWindow, Policy};
pub use state::{Event, Events, Ledger, Snapshot, WARNING_SECS};

verus! {

/// Number of cradles in the first build.
pub const DEVICES: usize = 2;

/// Human-readable device names, indexed the same way as [`Snapshot::docked`].
pub type DeviceNames = [&'static str; DEVICES];

} // verus!
