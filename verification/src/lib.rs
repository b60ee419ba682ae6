//! Parsers for plain-text calendars (`icalendar.txt`) and task lists (`todo.txt`).
//!
//! Calendar entries start with an ISO 8601 interval followed by a description,
//! task entries follow the todo.txt conventions. Descriptions may carry
//! `+project` and `@context` tags and `key:value` properties.
pub mod dates;
pub mod error;
pub mod scan;
pub mod iso8601;
pub mod text;
pub mod entry;
pub mod parser;
pub mod calendar;
pub mod todo;
pub mod error_info;
pub mod todo_txt;
pub mod xtask;
pub mod lines;

pub use iso8601::Interval;
pub use entry::{CalendarEntry, TodoEntry, EntryMetadata};
pub use error::{Error, ErrorKind};
pub use error_info::ErrorInfo;
