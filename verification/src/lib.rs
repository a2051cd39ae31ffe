//! Shared toolkit for GitHub Actions binaries.
//!
//! It is the typed bridge between the runner's conventions and Rust values:
//! `INPUT_<NAME>` variables become named inputs ([`input`], [`scalar`]),
//! outputs become `$GITHUB_OUTPUT` entries ([`output`]), a step summary is
//! built as markdown ([`summary`]), errors render as workflow commands
//! ([`error`]) and log lines respect the debug toggle ([`log`]). Everything
//! here computes text; reading the environment and writing files is left to
//! the caller.
pub mod error;
pub mod input;
pub mod log;
pub mod output;
pub mod paths;
pub mod scalar;
pub mod string_map;
pub mod summary;
pub mod text;

pub use error::{ActionError, ActionResult, ErrorContext};
pub use input::{EnvSource, MapEnv};
pub use output::Output;
pub use string_map::StringMap;
pub use summary::StepSummary;
