//! The decision logic of a local CI/CD runner.
//!
//! Every rule of the runner stands here: which stages run and in which order,
//! what a container is given, what a result says, what a report reads like and
//! what the dashboard shows. Nothing in this crate performs input or output;
//! callers carry out the actions it hands them and report back what happened.

pub mod text;
pub mod numbers;
pub mod order;
pub mod scan;
pub mod env;
pub mod config;
pub mod schedule;
pub mod resolve;
pub mod clock;
pub mod result;
pub mod output;
pub mod paint;
pub mod ident;
pub mod container;
pub mod docker;
pub mod logger;
pub mod monitor;
pub mod tui;
pub mod screen;
pub mod paths;
pub mod cache;
pub mod secrets;
pub mod persist;
pub mod select;
pub mod execution;
pub mod runner;
pub mod validate;
pub mod cli;
pub mod init;
pub mod launch;
