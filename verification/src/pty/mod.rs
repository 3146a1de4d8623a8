//! The pseudo-terminal runtime, as far as it decides and encodes: messages
//! echoed into a terminal, updates and what they do, and the dirty flag.

pub mod command;
pub mod messages;
pub mod terminal;
