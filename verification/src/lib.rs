//! Rule resolution and live transparency engine for desktop windows.
//!
//! The library holds the decisions of the program: which windows a rule
//! targets, what the handle cache looks like after a refresh, which
//! translucency level each window is owed, and how a rule is rebound to an
//! ancestor window and back. The operating system is reached only by the
//! program around the library, which hands in snapshots of the desktop and
//! carries out the commands the library returns.
//!
//! - `win_utils`: the plain values that pass between library and platform.
//! - `window_config`: a rule, and the resolution of a class to its nearest
//!   ancestor window.
//! - `util`: the rule set.
//! - `app_state`: the rule store with its edits, promotion and demotion.
//! - `monitor`: the handle cache, its refresh and its reset.
//! - `engine`: the reconciliation loop as a state machine.
//! - `monitor_proofs`, `engine_proofs`, `tick_proofs`, `rules_proofs`: what
//!   is proved of the above.

pub mod app_state;
pub mod engine;
pub mod engine_proofs;
pub mod monitor;
pub mod monitor_proofs;
pub mod rules_proofs;
pub mod seq_util;
pub mod tick_proofs;
pub mod util;
pub mod win_utils;
pub mod window_config;
