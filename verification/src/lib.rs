//! Verified core of a small systemd-style unit file tool: the unit search
//! paths, the unit file parser, the rules that plan an `edit` of a drop-in
//! override and the rules that select, order and render a unit `list`.
//! File system, environment, process and terminal work is done by the
//! caller, which hands plain values in and takes plain values back.

pub mod text;
pub mod paths;
pub mod unit_file;
pub mod edit;
pub mod order;
pub mod list;
pub mod systemd_modes;
