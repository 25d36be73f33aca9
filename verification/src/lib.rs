//! A terminal session manager for shpool.

pub mod age;
pub mod chrome;
pub mod driver;
pub mod events;
pub mod executor;
pub mod menu;
pub mod order;
pub mod session;
pub mod shell;
pub mod table;
pub mod text;
pub mod tty;
pub mod tui;
