//! Verified core of a strength-training coaching service.
//!
//! The library models one append-only key-value table that serves several
//! access patterns (time-ordered workout history, per-body-part menus),
//! builds prompts for a text-completion provider, and validates the
//! provider's free-form replies against strict JSON schemas.
//!
//! The layers, from the bottom up:
//! - [`text`] and [`digits`]: characters, lexicographic order, decimal
//!   digit strings;
//! - [`json`], [`jsonparse`], [`jsonround`]: a JSON document model with an
//!   exactly specified printer, a strict reader, and the proof that the
//!   reader inverts the printer;
//! - [`types`], [`codec`], [`keys`]: the domain records, their wire
//!   encodings, and the derived storage keys;
//! - [`table`], [`store`]: the sorted single-table model and the domain
//!   queries over it;
//! - [`prompt`], [`provider`], [`ai`], [`errors`]: the instruction
//!   templates, the two backend wire formats, and the three pipelines.

pub mod ai;
pub mod codec;
pub mod digits;
pub mod errors;
pub mod json;
pub mod jsonparse;
pub mod jsonround;
pub mod keys;
pub mod prompt;
pub mod provider;
pub mod store;
pub mod table;
pub mod text;
pub mod types;
