//! The supervisor of a chainsaw run: what each command and each pass of the daemon decides.

pub mod abort;
pub mod acceptance;
pub mod agent;
pub mod calibration;
pub mod command;
pub mod commentator;
pub mod communication;
pub mod daemon;
pub mod dummy;
pub mod environment;
pub mod error;
pub mod events;
pub mod herdr;
pub mod json;
pub mod moments;
pub mod number;
pub mod planning;
pub mod prompt;
pub mod remedies;
pub mod session;
pub mod session_runtime;
pub mod settings;
pub mod sizes;
pub mod state_report;
pub mod store;
pub mod task;
pub mod text;
pub mod transcripts;
pub mod warnings;
