//! The install and upgrade pipeline of a package-manager front end, verified.
//!
//! - `classify`: raw process output to finalized and transient lines.
//! - `transient`: which finalized lines are redraw noise.
//! - `runner`: output lines and exit statuses as progress and results.
//! - `batch`: the sequencer of install and upgrade batches, as a state
//!   machine that the caller drives.
//! - `table`: the fixed-width tables of `list` and `upgrade`.
//! - `progress`: per-item status and log as the consumer tracks them.
//! - `catalog`, `profile`, `settings`: the catalog, profiles and the extra
//!   flags from settings.

pub mod batch;
pub mod catalog;
pub mod classify;
pub mod profile;
pub mod progress;
pub mod runner;
pub mod settings;
pub mod text;
pub mod table;
pub mod transient;
