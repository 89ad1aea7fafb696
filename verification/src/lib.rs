//! Pick a script from `package.json` or a task from `deno.json` and run it.
//!
//! Everything that is decided, parsed, laid out or looked up lives here and is
//! verified. Reading files, talking to the terminal and starting the task are
//! left to the program around the library, which hands over plain values and
//! takes plain values back.

pub mod cli;
pub mod json;
pub mod manifest;
pub mod results;
pub mod run;
pub mod std_items;
pub mod text;
pub mod ui;
