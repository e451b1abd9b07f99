//! Rule engine and dispatch scheduler of a three-dimensional cellular automaton.
//!
//! The automaton lives on a cubic grid on the graphics device. This library holds what
//! is decided on the host: the rule with its text form and its record on the device, the
//! scheduler that picks the compute pass of each frame, and the timer that paces the
//! steps. It draws nothing and talks to no device; the application around it does.
//!
//! - [`rule`]: sets of neighbour counts, the ways of seeding and colouring, the rule.
//! - [`rule_text`]: what a text of neighbour counts means, and the text of a set.
//! - [`grammar`]: the grammar of that text by the shape of a text, and that reading
//!   follows exactly this grammar.
//! - [`parse`], [`format`]: reading and writing that text.
//! - [`written`]: the shape of the text that is written.
//! - [`round_trip`]: reading what was written gives the same set.
//! - [`gpu_rule`]: the record of a rule on the device, and when to write it anew.
//! - [`ca_compute`]: the scheduler and the timer.
//! - [`schedule`]: what holds of every run of the scheduler.

pub mod ca_compute;
pub mod format;
pub mod gpu_rule;
pub mod grammar;
pub mod parse;
pub mod round_trip;
pub mod rule;
pub mod rule_text;
pub mod schedule;
pub mod written;
