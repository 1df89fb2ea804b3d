//! Session engine of an interactive picker for remote-shell targets.
//!
//! The picker holds a list of connections, narrows it by fuzzy search, moves
//! a cursor over what is left, and hands the chosen connection to a remote
//! shell. This crate holds the rules: how a line becomes a connection, how the
//! list is ranked, what each key does, and in which order the terminal is
//! given away and taken back. Reading keys, drawing and running the shell are
//! left to the program that uses it.

pub mod app;
pub mod config;
pub mod filter;
pub mod input;
pub mod models;
pub mod ssh;
pub mod text;
pub mod ui;
