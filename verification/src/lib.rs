//! Home automation around a controller board with thirty-two inputs and
//! thirty-two outputs.
//!
//! `shal` holds the rule language that tells the controller what to do: its
//! grammar and parser, its compiler to a bytecode without jumps, the
//! serialised form of a program, the checks that a program fits the
//! controller, and a simulator. `controller` holds the messages of the serial
//! link, `handlers` what the bridge makes of them, and `gateway` the framing
//! and the services of the older gateway.

pub mod args;
pub mod checksum;
pub mod controller;
pub mod gateway;
pub mod handlers;
pub mod pattern;
pub mod shal;
pub mod text;
