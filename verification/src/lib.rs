//! Parser and in-memory model for the single-line, plain-text task-tracking
//! format: each line is one task, optionally annotated with a completion
//! marker, a priority, one or two dates, and a free-text description that
//! carries embedded project tags (`+name`), context tags (`@name`) and custom
//! `key:value` tags.
//!
//! The grammar of a line is
//!
//! ```text
//! [ "x" WS ] [ "(" UPPER ")" WS ] [ DATE [ WS DATE ] WS ] DESCRIPTION
//! DATE := DDDD "-" DD "-" DD
//! WS   := one ASCII whitespace byte
//! ```
//!
//! Every parser works over the byte representation of a line.  Each grammar
//! rule has a specification-level model (a `spec` function from a byte
//! sequence and a position to the parsed value and the position after it),
//! and every executable parser is verified against its model.

pub mod date;
pub mod description;
pub mod parse;
pub mod priority;
pub mod span;
pub mod state;
pub mod task;

pub use crate::date::Date;
pub use crate::date::DateCompound;
pub use crate::date::SimpleDate;
pub use crate::description::Component;
pub use crate::description::Components;
pub use crate::description::Description;
pub use crate::priority::Priority;
pub use crate::state::State;
pub use crate::task::Task;
pub use crate::task::TaskBuilder;

