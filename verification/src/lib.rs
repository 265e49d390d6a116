//! Verified core of the Stenoswitch steno keyboard firmware.
//!
//! The modules hold the decisions and data transformations of the
//! keyboard, USB, and battery-management programs; the hardware access
//! lives in the companion application crate.

pub mod current_monitor;
pub mod usb_keyboard;
pub mod usb_comms;
pub mod scan;
pub mod i2c;
pub mod battery_monitor;
pub mod current_rheostat;
pub mod notify_lines;
pub mod charge_control;
