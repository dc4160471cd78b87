//! Per-process network bandwidth, folded out of the kernel's per-flow counters.

pub mod app;
pub mod cli;
pub mod dns;
pub mod format;
pub mod model;
pub mod ntstat;
pub mod rate;
pub mod report;
pub mod services;
pub mod session;
pub mod sort;
pub mod text;
pub mod ui;
