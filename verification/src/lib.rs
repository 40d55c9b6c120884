//! The command handlers of a small desktop application's native backend:
//! a fixed-format greeting, an ancestor-directory search for marker files,
//! a snapshot of the working directory and the process environment, and the
//! decisions of a one-time resource install.
//!
//! Locations travel as `file:` URLs; the moves between a URL and a
//! filesystem path come from the `url` crate behind trusted wrappers, and
//! everything the handlers decide about paths, environments and the install
//! is verified.

pub mod env_vars;
pub mod finder;
pub mod greet;
pub mod install;
pub mod location;
pub mod path;
