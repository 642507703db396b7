//! Keep track of all the git repositories on a machine.

pub mod cache;
pub mod config;
pub mod decimal;
pub mod discover;
pub mod errors;
pub mod fingerprint;
pub mod ignore;
pub mod inventory;
pub mod matcher;
pub mod order;
pub mod parallel;
pub mod repo;
pub mod report;
pub mod subcommands;
pub mod text;

pub use config::Config;
pub use errors::GitGlobalError;
pub use repo::Repo;
pub use report::Report;
