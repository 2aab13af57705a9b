//! Charm: the decision logic of a git-push-to-deploy tool for a single host.
pub mod text;
pub mod paths;
pub mod util;
pub mod domains;
pub mod keys;
pub mod caddy;
pub mod app;
pub mod cli;
pub mod tui;
pub mod install;
pub mod uninstall;
pub mod shell;
pub mod deploy;
