//! A multi-path UDP proxy that obfuscates packets by XOR.
//!
//! The library holds every decision the proxy makes: how a packet is put on the
//! wire and read back, which path it takes, whom a reply goes to, which peers are
//! forgotten, and how the command line is understood. Sockets, tasks and timers
//! are left to the program around it.
pub mod address;
pub mod args;
pub mod client;
pub mod clock;
pub mod key;
pub mod packet;
pub mod registry;
pub mod rotation;
pub mod server;
pub mod singular;
pub mod text;
pub mod tunnel;
