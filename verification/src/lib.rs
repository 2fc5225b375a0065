//! The desktop shell of the DeepSeek Harness: the logic that decides how the
//! backend is launched, how its stdout handshake is read, how its stderr tail
//! is kept, and how the shell answers the backend's exit and the window's close.

pub mod backend;
pub mod launch;
pub mod parse;
pub mod path;
pub mod shell;
pub mod text;
