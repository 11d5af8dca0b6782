pub mod channels;
pub mod client;
pub mod handler;
pub mod message;
pub mod socket;
pub mod user;
