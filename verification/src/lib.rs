//! Pointer-edge host switching between machines that share one keyboard and
//! mouse: which host lies past each screen edge, when the pointer has crossed,
//! how the crossing is handed to the peer, and how the devices are moved.
//!
//! Everything here is computation on plain values. Sockets, display servers,
//! HID++ channels and timers live in the application around this library.

pub mod config;
pub mod little_endian;
pub mod single;
pub mod fraction;
pub mod fraction_laws;
pub mod clock;
pub mod flow;
pub mod seal;
pub mod seal_laws;
pub mod wire;
pub mod pointer;
pub mod edge_switch;
pub mod edge_switch_laws;
pub mod edge_watch;
pub mod send;
pub mod listen;
pub mod hosts;
pub mod host_name;
pub mod host_table;
pub mod link;
pub mod backoff;
pub mod host_switch;
pub mod host_switch_model;
pub mod host_switch_round;
pub mod host_switch_laws;
pub mod host_switch_outcomes;
