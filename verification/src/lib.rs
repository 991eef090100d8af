//! A stream-naming database and the harness that simulates its surroundings.
//!
//! The database reserves a small slot for every stream name whose creation is
//! in flight, hands the slot's index to an asynchronous I/O substrate inside an
//! eight-byte correlation token, and files the name in its directory once the
//! substrate reports the matching completion. Completions may arrive in any
//! order.
//!
//! - [`db_ctx`]: the correlation token and its wire format.
//! - [`names`]: the pending-name table.
//! - [`directory`]: the directory of the streams that exist.
//! - [`file_io`]: requests, responses, and what a substrate has to offer.
//! - [`db`]: the database itself.
//! - [`laws`]: what holds of the database over any sequence of calls.
//! - [`queue`], [`rng`], [`os`]: a simulated substrate that completes requests
//!   in random order.
//! - [`system`]: what holds of the database and that substrate together.
//! - [`usr`], [`name_source`], [`simulator`]: the rest of a simulation.
//! - [`scheduler`]: the order in which suspended tasks are polled.
pub mod db;
pub mod db_ctx;
pub mod directory;
pub mod file_io;
pub mod laws;
pub mod name_source;
pub mod names;
pub mod os;
pub mod queue;
pub mod rng;
pub mod scheduler;
pub mod simulator;
pub mod system;
pub mod usr;

pub use crate::db::{DbState, FatalErr, Notice, URes, UserCtx, DB};
pub use crate::db_ctx::Create;
pub use crate::directory::{AlreadyExists, StreamDirectory};
pub use crate::file_io::{FileIO, IOReq, IORes};
pub use crate::name_source::NameSource;
pub use crate::names::{CreateStreamErr, RequestedStreamNames};
pub use crate::os::{OsState, Stats, FD, OS};
pub use crate::queue::PriorityQueue;
pub use crate::scheduler::{Polled, Scheduler};
pub use crate::simulator::Simulator;
pub use crate::usr::{Ctx, UsrStats};
