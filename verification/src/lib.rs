//! A terminal console for SSH sessions and serial ports: the verified core.
use vstd::prelude::*;

pub mod ansi;
pub mod text;
pub mod connection;
pub mod session;
pub mod config;
pub mod serial;
pub mod ssh;
pub mod app;
pub mod ui;
pub mod logfile;
pub mod notebook;

verus! {

} // verus!
