//! MCU-side implementation of the Klipper firmware communication protocol.
//!
//! The runtime half frames, checks and sequences messages on a byte stream:
//! a variable-length integer codec, small fixed-capacity buffers, and a
//! resynchronizing frame state machine with CRC16 and ACK handling.
//!
//! The build-time half turns a catalog of commands, replies and outputs into
//! a compressed data dictionary and the source text of a dispatcher module.

pub mod bytemap;
pub mod cfg_expr;
pub mod clock;
pub mod command;
pub mod dictionary;
pub mod emit;
pub mod encoding;
pub mod enumeration;
pub mod errors;
pub mod fifo_buffer;
pub mod generate;
pub mod identify;
pub mod input_buffer;
pub mod json;
pub mod msg_desc;
pub mod output;
pub mod output_buffer;
pub mod processor;
pub mod reply;
pub mod state;
pub mod static_string;
pub mod transport;
pub mod transport_output;
