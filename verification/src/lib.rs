//! Verified core of a terminal status-display tool: parsers for the textual
//! output of system commands, a duration normalizer, and a deterministic
//! snapshot composer. All process spawning and file reading lives outside
//! this crate; every function here is pure text processing with a contract.

pub mod android_logo;
pub mod android_logo_small;
pub mod android_temp;
pub mod config;
pub mod disk_space;
pub mod duration;
pub mod sysinfo;
pub mod termux_banner;
pub mod text;
pub mod uptime;

use vstd::prelude::*;

verus! {

/// How one external command invocation went: it produced text, it ran but
/// failed, or it could not be run at all.
pub enum CommandOutcome {
    Success(String),
    Failed,
    NotRun,
}

} // verus!
