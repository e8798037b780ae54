//! A lightweight workflow engine that runs the process flow of a BPMN 2.0 diagram.
mod text;
pub mod bpmn;
pub mod error;
pub mod func_map;
pub mod diagram;
pub mod raw;
pub mod construction;
pub mod builder;
mod xml;
pub mod reader;
pub mod api;
mod handler;
pub mod tokens;
pub mod flows;
pub mod process;
pub mod engine;
pub mod runner;
pub mod scaffold;

pub use api::{Exclusive, Inclusive, IntermediateEvent, Task};
pub use bpmn::Symbol;
pub use process::{Process, ProcessBuilder};
