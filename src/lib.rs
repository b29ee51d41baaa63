//! Schedule-driven image synchronisation for networked LED-matrix displays.
//!
//! The library decides which rule of a day/time schedule is active, which
//! display targets need a new image, and keeps the record of what each
//! target last showed.

mod text;

pub mod cli;
pub mod config;
pub mod device;
pub mod schedule;
pub mod state;
pub mod sync;
