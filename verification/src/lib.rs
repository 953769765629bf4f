//! Routing core of a chat bot.
//!
//! - [`command`]: commands and the registry that keeps their names unique.
//! - [`module`]: the command map of a module, resolved by longest match.
//! - [`worker`]: the capabilities of a module and the loop over its queue.
//! - [`bot`]: registration, and the step that routes one message.
//! - [`message`]: messages, requests, responses and how they are rendered.
//! - [`user`]: the directory of known users.
//! - [`text`], [`table`]: matching of names, and the table behind a map.

pub mod text;
pub mod table;
pub mod message;
pub mod command;
pub mod module;
pub mod worker;
pub mod user;
pub mod bot;
