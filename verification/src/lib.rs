//! Flow-based programming: typed ports, an in-process transport, a system
//! builder and a small block library, with machine-checked contracts.

pub mod block;
pub mod delay;
pub mod input_port;
pub mod laws;
pub mod lines;
pub mod message;
pub mod output_port;
pub mod port;
pub mod process;
pub mod read_file;
pub mod stdio;
pub mod system;
pub mod time;
pub mod transport;
