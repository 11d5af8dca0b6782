use mio::tcp::{TcpListener, TcpStream};
use vstd::prelude::*;

verus! {

/// A connected non-blocking TCP stream of the event loop, carried opaquely.
#[verifier::external_type_specification]
#[verifier::external_body]
pub struct ExTcpStream(TcpStream);

/// The listening socket of the server, carried opaquely.
#[verifier::external_type_specification]
#[verifier::external_body]
pub struct ExTcpListener(TcpListener);

} // verus!
