//! Repository automation for Ember: the logic behind `cargo xtask`.
//!
//! Everything here computes on plain values. Reading files, starting
//! processes and printing are left to the binary that drives it.

pub mod check;
pub mod image;
pub mod kfc;
pub mod loca;
pub mod order;
pub mod policy;
pub mod proc;
pub mod root;
pub mod schema;
pub mod server;
pub mod sig;
pub mod steam;
pub mod text;
pub mod ui;
