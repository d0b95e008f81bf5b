use vstd::prelude::*;

pub mod authz;
pub mod client;
pub mod cloudflare;
pub mod commands;
pub mod config;
pub mod console;
pub mod envclass;
pub mod identity;
pub mod images;
pub mod keyed;
pub mod manifest;
pub mod metrics;
pub mod output;
pub mod platform;
pub mod project;
pub mod read;
pub mod release;
pub mod resolve;
pub mod run;
pub mod shell;
pub mod snapshot;
pub mod strset;
pub mod tarball;
pub mod text;

verus! {
}
