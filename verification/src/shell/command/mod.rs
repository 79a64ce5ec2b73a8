//! The shell's command handlers: each parses its arguments from the raw
//! command line and performs its work through the kernel it is handed.

pub mod cd;
pub mod exists_cmd;
pub mod ls;
pub mod mkdir;
pub mod time;
pub mod top;
