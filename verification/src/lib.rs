//! Process lifecycle decisions for a local process supervisor.

pub mod catalog;
pub mod config;
pub mod control;
pub mod daemon;
pub mod envs;
pub mod laws;
pub mod live;
pub mod numeral;
pub mod pick;
pub mod plan;
pub mod project;
pub mod record;
pub mod report;
pub mod resolve;
pub mod signal;
pub mod text;
