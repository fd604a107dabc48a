//! The logic of a live-reloading Markdown preview: the command line, the
//! control protocol between invocations, the HTTP decisions of the server, and
//! the rendering, each function with the contract that it is proved to meet.

pub mod call;
pub mod cli;
pub mod control;
pub mod decimal;
pub mod event;
pub mod exchange;
pub mod idle;
pub mod invocation;
pub mod path;
pub mod percent;
pub mod render;
pub mod server;
pub mod session;
pub mod stream;
pub mod text;
pub mod watch;
