//! What the subcommands decide: the paths they act on, the texts they print or
//! commit with, and the outcome of each step.
pub mod edit;
pub mod find;
pub mod generate;
pub mod init;
pub mod mv;
pub mod otp;
pub mod show;
pub mod unclip;
