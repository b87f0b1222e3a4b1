//! CSV rows in and out: commands from input rows, account rows for output.
pub mod reader;
pub mod writer;

pub use reader::{commands_from_rows, RawEvent};
pub use writer::{output_rows, OutputRow};
