//! Session and process-management core of a remote command daemon.
pub mod circular_buffer;
pub mod text;
pub mod pool;
pub mod reader;
pub mod command;
pub mod dispatch;
pub mod pcg;
pub mod keystream;
