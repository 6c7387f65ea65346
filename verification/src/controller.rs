//! The messages exchanged with the controller board over the serial link.

pub mod button_event;
pub mod command;
pub mod event;
pub mod message;
pub mod program_header;
