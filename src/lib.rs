//! A user-level scheduled-task manager: a job model, the wire codec of its
//! control protocol, and the decisions of the service that keeps the jobs.
pub mod job;
pub mod json;
pub mod words;
pub mod wire;
pub mod cli;
pub mod command;
pub mod ident;
pub mod scheduler;
