//! Planning and checking logic of `cargo with`: a cargo subcommand that builds
//! an artifact with `cargo build`/`cargo test` and runs it through another
//! tool such as `gdb`, `strace` or `valgrind`.
//!
//! The caller does the outside work (running cargo, reading its JSON
//! messages, starting the tool); this library decides everything else.

pub mod cargo;
pub mod error;
pub mod run;
pub mod text;
pub mod with_command;

pub use cargo::{can_select, select_buildopt, BuildOpt, Cmd, CmdKind, Profile, Target, TargetKind};
pub use error::{Candidate, Error};
pub use run::{cargo_command, child_for_run, child_for_runner, child_for_with, process_matches};
pub use with_command::{ChildCommand, WithCmd};
