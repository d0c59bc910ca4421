//! Remembers the branch prefixes of an issue tracker (`owner/TICKET-123`) that
//! were used last, and makes new branch names under them.
//!
//! The library decides; the program around it reads the command line and the
//! store's file, runs `git`, and writes the store back.
//!
//! - [`prefix`] recognizes the prefix that a branch name starts with,
//!   [`title`] makes a readable title of a branch name;
//! - [`storage`] holds the records, one per prefix, and [`recency`] orders them;
//! - [`app`] works out the branch that a command line asks for, and what
//!   becomes of the store once the branch exists.

pub mod app;
pub mod args;
pub mod charclass;
pub mod command_format;
pub mod command_new_branch;
pub mod command_new_branch_with_last_prefix;
pub mod command_push;
pub mod err;
pub mod prefix;
pub mod recency;
pub mod storage;
pub mod text;
pub mod title;
