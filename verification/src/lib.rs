//! A to-do list held in order: tasks are added at the front, picked by an
//! index, a range or a text pattern, moved to the front when work starts on
//! them, and moved to the end when they are done.
//!
//! - [`task`] and [`time`] hold a task and its timestamps.
//! - [`selector`] reads what a user types into a selector; [`selection`]
//!   says which positions a selector takes, and [`pattern`] which texts a
//!   pattern matches.
//! - [`lifecycle`] says where a task goes when it is promoted or completed;
//!   [`store`] does it on the list of tasks and reports on the [`console`].
//! - [`file`] reads and writes the task file.
//! - [`command`] carries out a whole command line.
//! - [`text`] holds the handling of numbers and words that the others share.
//!
//! Positions count from 0 inside the library; the numbers that a user sees
//! and types count from 1.

pub mod command;
pub mod console;
pub mod file;
pub mod lifecycle;
pub mod pattern;
pub mod selection;
pub mod selector;
pub mod store;
pub mod task;
pub mod text;
pub mod time;
