//! A verified core for a `pass`-compatible password store.
pub mod cli;
pub mod clipboard;
pub mod config;
pub mod digest;
pub mod error;
pub mod git;
pub mod fuzzy;
pub mod order;
pub mod otp;
pub mod otp_cmd;
pub mod otp_uri;
pub mod paths;
pub mod secret;
pub mod store;
pub mod style;
pub mod subcmds;
pub mod text;
pub mod tree;
pub mod ui;
