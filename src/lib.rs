//! Command-execution core of a programmable-transaction processor: argument
//! layouts and their wire format, the amplification bound, call marshalling
//! rules, coin commands, package upgrade checks and the command dispatcher.

pub mod layout;
pub mod errors;
pub mod wire;
pub mod config;
pub mod types;
pub mod bound;
pub mod value;
pub mod slots;
pub mod coins;
pub mod marshal;
pub mod upgrade;
pub mod commands;
pub mod dispatch;
pub mod type_input;
pub mod publish;
