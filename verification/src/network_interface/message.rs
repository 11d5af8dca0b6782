use vstd::prelude::*;

verus! {

/// Requests about clients, each naming a client by its event-loop token.
#[allow(dead_code)]
enum Message {
    QUIT,
    KICK(String, usize),
    JOIN(String, usize),
    DISCON(usize),
}

} // verus!
