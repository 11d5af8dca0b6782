pub mod command;
pub mod message;
pub mod user;
