//! The parts of the bridge that pass messages between the controller and
//! the rest of the house.

pub mod handler;
pub mod handler_chain;
pub mod message;
pub mod mqtt_handler;
pub mod programmer;
pub mod refresher;
pub mod serial_handler;
