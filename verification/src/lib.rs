//! A work/break interval timer with a task list and a daily report ledger.
//!
//! The crate holds the three interlocking parts of the timer and the
//! coordinator that wires them together:
//!
//! * [`timer`]: the countdown/overtime state machine and its elapsed-time
//!   accounting;
//! * [`tasks`]: the ordered task list, the active task and the edit slot;
//! * [`report`]: the per-day history with its streak statistics;
//! * [`pomodoro`]: the timer and the task list together, driven by
//!   messages;
//! * [`coordinator`]: the settings, the three parts, and the decisions
//!   between them.
//!
//! [`span`] and [`date`] hold the plain values that time is measured in,
//! [`text`] the trimming of what the user types, [`setting`] the settings,
//! and [`search`] what the parts share of looking through sequences.
//!
//! Every function is verified against a contract stated over the
//! mathematical views of these types. Nothing here reads a clock on its
//! own but for the calendar day of a new report: the caller hands in the
//! readings, as spans since an origin of its choice, and carries out what
//! an update leaves to do (storing, notifying, focusing a field).

pub mod coordinator;
pub mod date;
pub mod pomodoro;
pub mod report;
pub mod search;
pub mod setting;
pub mod span;
pub mod tasks;
pub mod text;
pub mod timer;
