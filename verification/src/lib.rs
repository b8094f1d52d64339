//! A log-line highlighting engine: recognizes syntactic tokens (IPv6
//! addresses, pointers, UUIDs, URLs, key=value pairs, quoted strings,
//! process[pid] markers, numbers) in plain-text lines and wraps each
//! recognized sub-span in ANSI color codes, leaving all other bytes
//! unchanged.

pub mod config;
pub mod highlight;
pub mod io_control;
pub mod highlighters;
pub mod idempotence;
pub mod pipeline;
pub mod scan;
pub mod split_and_apply;
pub mod style;
