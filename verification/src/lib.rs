//! Verified core of `haj`, a quiet front end for pacman: parsing of pacman's
//! logs and output, the news feed, package archive names, conflict handling,
//! command plans and the state transitions of the terminal dashboard.
pub mod text;
pub mod netmsg;
pub mod bytes;
pub mod pacman_log;
pub mod history;
pub mod pacman_output;
pub mod backend;
pub mod sort;
pub mod browser;
pub mod tui;
pub mod selection;
pub mod palette;
pub mod downgrade;
pub mod conflicts;
pub mod news;
pub mod groups;
pub mod install;
pub mod aur;
pub mod stream;
pub mod config;
pub mod commands;
pub mod dashboard;
pub mod highlight;
pub mod keys;
