//! A command-line argument rewriter and pipeline dispatcher.
//!
//! The library rewrites the flags of a wrapped executable according to
//! configured aliases, then scans the rewritten tokens for flags that
//! trigger a configured post-processor, producing the final argument list
//! together with an optional downstream command description.  All token
//! transformation logic lives here and is verified; spawning the processes
//! is left to the embedding application.

pub mod strutil;
pub mod config;
pub mod alias;
pub mod matcher;
