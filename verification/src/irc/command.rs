use crate::irc::message::{Message, ServerMessage};
use crate::irc::user::User;
use std::sync::mpsc::Sender;
use vstd::prelude::*;

verus! {

/// The sending end of a channel of the standard library, carried opaquely.
#[verifier::external_type_specification]
#[verifier::external_body]
#[verifier::reject_recursive_types(T)]
pub struct ExSender<T>(Sender<T>);

/// Handles a command that `sender` sent, with `chan` to reach the event loop.
/// No command is acted on yet: the call changes nothing and sends nothing.
#[allow(unused_variables)]
pub fn handle(message: Message, sender: User, chan: Sender<ServerMessage>) {
}

} // verus!
