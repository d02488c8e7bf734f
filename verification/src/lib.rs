pub mod cli;
pub mod count;
pub mod message;
pub mod preflight;
pub mod rebase;
pub mod text;

pub use cli::{Action, Cli, InternalCommand, Shell};
pub use message::{rewrite_todo, strip_coauthors, StripError};
pub use preflight::{run_preflight, PreflightStatus, Probe, ProbeMode, Reply, Request};
