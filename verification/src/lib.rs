//! Build-and-run orchestration for container images.
//!
//! The library holds what the orchestration decides, each function with a
//! contract that Verus proves:
//!
//! - [`toposort`] turns a precedence graph into a layered schedule;
//!   [`precedence`] is its model and [`schedule_laws`] what holds of every
//!   schedule;
//! - [`config`] and [`deps`] hold the configuration records and the
//!   declared dependencies;
//! - [`docker_config`] and [`explain`] map the records to the options of
//!   the container engine and to the command lines they stand for;
//! - [`docker`] and [`progress`] hold the decisions of a build or pull job
//!   and the totals of its downloads;
//! - [`builder`], [`supervisor`] and [`listeners`] hold the decisions of
//!   the three actors.
//!
//! The calls to the container engine, the file system and the terminal are
//! made by the program around the library.

pub mod builder;
pub mod config;
pub mod deps;
pub mod docker;
pub mod docker_config;
pub mod error;
pub mod explain;
pub mod listeners;
pub mod mapping;
pub mod names;
pub mod precedence;
pub mod progress;
pub mod schedule_laws;
pub mod supervisor;
pub mod toposort;
