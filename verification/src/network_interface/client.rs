use mio::tcp::TcpStream;
use vstd::prelude::*;

verus! {

/// A socket together with the number of its IRC client.
#[allow(dead_code)]
struct Client {
    socket: TcpStream,
    irc_client: u32,
}

#[allow(dead_code)]
impl Client {
    /// A client on `stream`; its IRC client number is 32.
    fn new(stream: TcpStream) -> (c: Client)
        ensures
            c.socket == stream,
            c.irc_client == 32,
    {
        Client { socket: stream, irc_client: 32 }
    }
}

} // verus!
