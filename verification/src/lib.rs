//! The rules of the `ash` launcher, stated as contracts and proved: which hosts are offered
//! for selection and in which order, how a hint narrows them to one, what a session with a
//! remote shell writes and reads, and how a directory is browsed level by level.
//!
//! The library decides and computes. It runs no program, reads no file and asks no one:
//! whoever calls it does that and hands the results in.
//!
//! - `teleport`: the hosts of the fleet and how they are shown.
//! - `history`: the hosts that were selected before, most recent first.
//! - `select`: narrowing a list of options by a hint, and the prompt where the hint does
//!   not settle it.
//! - `commands`: the list offered for selection, the entries of a directory listing, the
//!   steps of the browsers, and the calls of the outside programs.
//! - `ssh`: the line protocol of a session with a remote shell.
//! - `text`, `seqs`, `prelude`: what the others share.

pub mod commands;
pub mod history;
pub mod prelude;
pub mod select;
pub mod seqs;
pub mod ssh;
pub mod teleport;
pub mod text;
