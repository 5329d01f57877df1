//! `indexd`: from a spoken command to its answer.
//!
//! A ring posts a transcript to `/hook`. The command is recorded ([`db`]) and, unless
//! the kill switch is off, handed to `internd` over HTTP ([`intern`], [`worker`]). The
//! outcome comes back by a callback ([`routes::callback`]), with a sweeper that asks
//! for whatever a callback missed ([`worker::Sweep`]). A console shows the log
//! ([`routes`], [`assets`]). Two gates stand before all of it ([`auth`]), and a check
//! of the `Host` ([`hosts`]); [`routes::surface`] puts them together. [`tmux`] is the
//! engine that puts a command to a terminal agent directly and reads the answer off its
//! screen.
//!
//! This crate decides and computes; beyond reading the clock and drawing random ids it
//! does no I/O. Whatever reads or sends hands it plain values: the answer of a process
//! or of a server, the rows of a database file, the fields of a request. Where the
//! daemon goes back and forth with the outside ([`tmux::Turn`], [`worker::Queue`],
//! [`worker::Sweep`], [`auth::access::KeyCache`]) the crate holds the state, says what
//! to do next, and takes what came back.
//!
//! What a function does is stated in its `ensures`, over mathematical models of its
//! arguments; proof functions whose names begin with `law_` state what holds across
//! functions. Each call into another crate stands behind a small function whose
//! contract is taken on trust, with a comment that says what is claimed.

pub mod assets;
pub mod auth;
pub mod config;
pub mod db;
pub mod events;
pub mod hosts;
pub mod ids;
pub mod intern;
pub mod json;
pub mod paths;
pub mod routes;
pub mod text;
pub mod tmux;
pub mod worker;
