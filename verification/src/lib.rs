//! Keeps an indented plain-text task list and a structured task store in step.
//!
//! The text form is read line by line into a forest of tasks, the forest is
//! merged into the stored collection, and tasks are written back as text.
//!
//! - [`task_model`]: the task record and its mathematical view.
//! - [`markdown_parser`]: one line into a task, a document into a forest.
//! - [`hierarchy`]: identifiers for the lines that write none, and the forest
//!   that lines of given depths grow into.
//! - [`nesting`]: under which line each line of a grown forest hangs.
//! - [`apply_logic`]: the merge of an edited forest into the store.
//! - [`markdown_formatter`]: a forest back into its document.
//! - [`calendar`]: the events of a day and their listing.
//! - [`grammar`], [`date`], [`text`]: patterns, dates and character
//!   sequences that the others are built from.
//!
//! Every function is verified against the contract it states. What a pattern
//! matches is decided by `regex`, how a full date is read by `chrono`, what day
//! it is by the clock: those calls stand behind functions whose contracts are
//! believed rather than proved, each marked where it stands.

pub mod apply_logic;
pub mod calendar;
pub mod date;
pub mod grammar;
pub mod hierarchy;
pub mod markdown_formatter;
pub mod markdown_parser;
pub mod nesting;
pub mod task_model;
pub mod text;
