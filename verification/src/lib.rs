//! An IRC server: message parsing, users, logging decisions and the
//! bookkeeping of connected clients and channels.
pub mod irc;
pub mod logging;
pub mod network_interface;
