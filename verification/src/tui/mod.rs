//! The terminal interface: a model, the events that change it, and what it
//! shows.

pub mod command;
pub mod event;
pub mod keymap;
pub mod keystrokes;
pub mod laws;
pub mod model;
pub mod parser;
pub mod template;
pub mod update;
pub mod view;

// The surface used outside this module.
pub use command::Command;
pub use event::Event;
pub use model::{Mode, Model, Var};
pub use parser::{Input, InputParser};
pub use update::update;
pub use view::{next_render_delay_ms, render};
