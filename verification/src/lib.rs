//! Protocol logic of an XDCC client: finding file offers that bots advertise on
//! an IRC network and fetching them over DCC.
//!
//! Everything here is a function from values to values. The program around the
//! library owns the sockets, the files and the terminal; it hands the library
//! what it read and carries out what the library decides.

pub mod text;
pub mod decimal;
pub mod irc;
pub mod search;
pub mod dcc;
pub mod session;
pub mod progress;
pub mod batch;
pub mod batch_laws;
pub mod download;
pub mod cli;
pub mod media;
pub mod display;
