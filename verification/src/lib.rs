//! A detachable terminal session manager: the wire protocol, command-line
//! parsing, session descriptors and the decision logic of the master and the
//! attaching client.

pub mod args;
pub mod attach;
pub mod launch;
pub mod list;
pub mod master;
pub mod output_filter;
pub mod protocol;
pub mod session;
pub mod text;
