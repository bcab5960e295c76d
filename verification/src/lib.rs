//! The deciding half of a bridge from a heart-rate sensor to a receiver of
//! control messages: what the command line means, what goes on the wire, and
//! which step follows which. Radio and sockets belong to the caller.

pub mod config;
pub mod endpoint;
pub mod handler;
pub mod osc;
pub mod session;
pub mod traces;
