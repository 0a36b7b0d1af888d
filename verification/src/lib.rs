//! A dotfiles manager's core: lexical path resolution between a home
//! directory and its repository mirror, planning of recursive copies,
//! repository lifecycle decisions and command dispatch.
//!
//! The library never touches the file system itself. It computes, from plain
//! values, the steps that a front end has to carry out, and states in its
//! contracts what those steps are.

pub mod path;
pub mod resolve;
pub mod remote;
pub mod steps;
pub mod copier;
pub mod lifecycle;
pub mod cli;
pub mod model;
pub mod laws;
