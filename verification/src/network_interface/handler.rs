use crate::irc::message::{display_message, Message, MessageModel, ServerMessage};
use crate::logging::Level;
use crate::network_interface::channels::{
    first_index, lemma_remove_all_members, members_of, remove_all, remove_first, ChannelList,
    RemoveOutcome,
};
use crate::network_interface::user::{is_new_client, Client};
use mio::tcp::{TcpListener, TcpStream};
use std::collections::HashMap;
use vstd::prelude::*;
use vstd::std_specs::hash::spec_hash_map_iter;
use vstd::std_specs::iter::IteratorSpec;

verus! {

/// The event-loop token of the listening socket; no client is ever given it.
pub const SERVER_TOKEN: usize = 0;

/// The server's state: the connected clients by token, the channels with the
/// tokens of their members, the listening socket, and the token counter. Each
/// client carries its socket, of type `S`, which the state never reads.
pub struct ServerHandler<S = TcpStream> {
    client_list: HashMap<usize, Client<S>>,
    channels: ChannelList,
    socket: TcpListener,
    token_counter: usize,
}

/// The abstract state of the server.
#[verifier::ext_equal]
pub struct HandlerModel<S> {
    /// The connected clients, by token.
    pub clients: Map<usize, Client<S>>,
    /// The channels by name, each with the tokens of its members in the order they joined.
    pub channels: Map<Seq<char>, Seq<usize>>,
    /// The token that was handed out last.
    pub token_counter: usize,
}

/// What the event loop has to do after the server has handled a request.
pub enum HandlerAction {
    /// Stop the event loop.
    Shutdown,
    /// Queue, on the event loop's own channel, the message for the client with this token.
    QueueForToken(usize, Message),
    /// Write the message to the client with this token; when that works, log
    /// the report at debug level, and otherwise log the failure as an error.
    Deliver(usize, Message, String),
    /// Log the line at the level.
    Log(Level, String),
}

/// The abstract content of a `HandlerAction`.
pub enum ActionModel {
    Shutdown,
    QueueForToken(usize, MessageModel),
    Deliver(usize, MessageModel, Seq<char>),
    Log(Level, Seq<char>),
}

impl HandlerAction {
    /// The abstract content of this action.
    pub open spec fn model(&self) -> ActionModel {
        match self {
            HandlerAction::Shutdown => ActionModel::Shutdown,
            HandlerAction::QueueForToken(t, m) => ActionModel::QueueForToken(*t, m.model()),
            HandlerAction::Deliver(t, m, report) => ActionModel::Deliver(*t, m.model(), report@),
            HandlerAction::Log(level, line) => ActionModel::Log(*level, line@),
        }
    }
}

/// The abstract content of a list of actions.
pub open spec fn action_models(v: Seq<HandlerAction>) -> Seq<ActionModel> {
    v.map_values(|a: HandlerAction| a.model())
}

/// The client with token `t` is connected and has the user name `name`.
pub open spec fn has_user_named<S>(clients: Map<usize, Client<S>>, t: usize, name: Seq<char>) -> bool {
    clients.contains_key(t) && clients[t].irc_user.name@ == name
}

/// The token of the user called `name`: the smallest one if several users
/// share the name, and `None` if nobody has it.
pub open spec fn token_of<S>(clients: Map<usize, Client<S>>, name: Seq<char>) -> Option<usize> {
    if exists|t: usize| has_user_named(clients, t, name) {
        Some(
            choose|t: usize|
                has_user_named(clients, t, name) && forall|u: usize|
                    has_user_named(clients, u, name) ==> t <= u,
        )
    } else {
        None
    }
}

/// How many steps it takes to go from `start` to `t` when counting up through
/// the client tokens `1..=usize::MAX`, starting again at 1 after the largest.
pub open spec fn steps_from(start: usize, t: usize) -> int {
    if t >= start {
        t - start
    } else {
        usize::MAX - start + t
    }
}

/// Some client token (any token but the server's) is not in use.
pub open spec fn some_token_free(taken: Set<usize>) -> bool {
    exists|t: usize| t != SERVER_TOKEN && !taken.contains(t)
}

/// `t` is the first client token not in use that is met when counting from
/// `counter` on.
pub open spec fn is_next_free(counter: usize, taken: Set<usize>, t: usize) -> bool {
    &&& t != SERVER_TOKEN
    &&& !taken.contains(t)
    &&& forall|u: usize|
        u != SERVER_TOKEN && steps_from(counter, u) < steps_from(counter, t) ==> taken.contains(u)
}

/// The first free client token from `counter` on.
pub open spec fn next_free_token(counter: usize, taken: Set<usize>) -> usize {
    choose|t: usize| is_next_free(counter, taken, t)
}

/// The token a new client is given when the counter stands at `counter` and
/// `taken` are the tokens in use: the first free client token from the counter
/// on (the counter's own token when it is free). Only when every client token
/// is in use is the counter's own token given, and its holder put out.
pub open spec fn allocated_token(counter: usize, taken: Set<usize>) -> usize {
    if some_token_free(taken) {
        next_free_token(counter, taken)
    } else {
        counter
    }
}

/// Counting from `start`, different client tokens are reached after different
/// numbers of steps, each fewer than `usize::MAX`.
pub proof fn lemma_steps_distinct(start: usize, t: usize, u: usize)
    requires
        start != SERVER_TOKEN,
        t != SERVER_TOKEN,
        u != SERVER_TOKEN,
    ensures
        0 <= steps_from(start, t) < usize::MAX,
        steps_from(start, t) == steps_from(start, u) ==> t == u,
{
}

/// At most one token is the first free one.
pub proof fn lemma_next_free_unique(counter: usize, taken: Set<usize>, t: usize, u: usize)
    requires
        counter != SERVER_TOKEN,
        is_next_free(counter, taken, t),
        is_next_free(counter, taken, u),
    ensures
        t == u,
{
    lemma_steps_distinct(counter, t, u);
}

/// When some client token is free, there is a first free one, `w` or one met before it.
pub proof fn lemma_next_free_exists(counter: usize, taken: Set<usize>, w: usize)
    requires
        w != SERVER_TOKEN,
        !taken.contains(w),
    ensures
        is_next_free(counter, taken, next_free_token(counter, taken)),
    decreases steps_from(counter, w) + usize::MAX,
{
    if forall|u: usize|
        u != SERVER_TOKEN && steps_from(counter, u) < steps_from(counter, w) ==> taken.contains(u) {
        assert(is_next_free(counter, taken, w));
    } else {
        let v = choose|u: usize|
            u != SERVER_TOKEN && steps_from(counter, u) < steps_from(counter, w) && !taken.contains(
                u,
            );
        lemma_next_free_exists(counter, taken, v);
    }
}

/// The log line for a user name that belongs to nobody.
pub open spec fn disconnected_line(who: Seq<char>) -> Seq<char> {
    "User \""@ + who + "\" has disconnected"@
}

/// What `REMOVE(chan, who)` does: the first occurrence of the user's token
/// leaves the channel, and the removal is logged; an unknown user, an unknown
/// channel, or a user who is not in the channel is logged as an error.
pub open spec fn remove_effect<S>(m: HandlerModel<S>, chan: Seq<char>, who: Seq<char>) -> (
    HandlerModel<S>,
    Seq<ActionModel>,
) {
    match token_of(m.clients, who) {
        None => (m, seq![ActionModel::Log(Level::ERR, disconnected_line(who))]),
        Some(t) => if !m.channels.contains_key(chan) {
            (
                m,
                seq![
                    ActionModel::Log(
                        Level::ERR,
                        "attempt to remove user \""@ + who + "\" from a non-existant channel"@,
                    ),
                ],
            )
        } else if !m.channels[chan].contains(t) {
            (
                m,
                seq![
                    ActionModel::Log(
                        Level::ERR,
                        "User \""@ + who + "\" is not in the channel named "@ + chan,
                    ),
                ],
            )
        } else {
            (
                HandlerModel {
                    clients: m.clients,
                    channels: m.channels.insert(chan, remove_first(m.channels[chan], t)),
                    token_counter: m.token_counter,
                },
                seq![
                    ActionModel::Log(
                        Level::INFO,
                        "User \""@ + who + "\" has been removed from the channel \""@ + chan
                            + "\""@,
                    ),
                ],
            )
        },
    }
}

/// What `ADD(chan, who)` does: the user's token is appended to the channel,
/// which is created when it does not exist; an unknown user is logged as an error.
pub open spec fn add_effect<S>(m: HandlerModel<S>, chan: Seq<char>, who: Seq<char>) -> (
    HandlerModel<S>,
    Seq<ActionModel>,
) {
    match token_of(m.clients, who) {
        None => (m, seq![ActionModel::Log(Level::ERR, disconnected_line(who))]),
        Some(t) => (
            HandlerModel {
                clients: m.clients,
                channels: m.channels.insert(chan, members_of(m.channels, chan).push(t)),
                token_counter: m.token_counter,
            },
            Seq::empty(),
        ),
    }
}

/// What `DISCON(who)` does: the user's token leaves every channel, every time
/// it is listed there, and the client leaves the client list; an unknown user
/// is logged as an error.
pub open spec fn discon_effect<S>(m: HandlerModel<S>, who: Seq<char>) -> (HandlerModel<S>, Seq<ActionModel>) {
    match token_of(m.clients, who) {
        None => (
            m,
            seq![ActionModel::Log(Level::ERR, "User \""@ + who + "\" has already been disconnected"@)],
        ),
        Some(t) => (
            HandlerModel {
                clients: m.clients.remove(t),
                channels: m.channels.map_values(|s: Seq<usize>| remove_all(s, t)),
                token_counter: m.token_counter,
            },
            Seq::empty(),
        ),
    }
}

/// What `CHANMSG(chan, what)` does: the message is queued for every member of
/// the channel, in the channel's order; an unknown channel is logged as an error.
pub open spec fn chanmsg_effect<S>(m: HandlerModel<S>, chan: Seq<char>, what: MessageModel) -> (
    HandlerModel<S>,
    Seq<ActionModel>,
) {
    if !m.channels.contains_key(chan) {
        (m, seq![ActionModel::Log(Level::ERR, "channel \""@ + chan + "\" does not exist"@)])
    } else {
        (m, m.channels[chan].map_values(|t: usize| ActionModel::QueueForToken(t, what)))
    }
}

/// What `USERMSG(who, what)` does: the message is queued for the user and
/// written to the user's socket; an unknown user is logged as an error.
pub open spec fn usermsg_effect<S>(m: HandlerModel<S>, who: Seq<char>, what: MessageModel) -> (
    HandlerModel<S>,
    Seq<ActionModel>,
) {
    match token_of(m.clients, who) {
        None => (
            m,
            seq![ActionModel::Log(Level::ERR, "User with the name "@ + who + " does not exist"@)],
        ),
        Some(t) => (
            m,
            seq![
                ActionModel::QueueForToken(t, what),
                ActionModel::Deliver(
                    t,
                    what,
                    "Message: "@ + display_message(what) + "\nReciever: "@ + who,
                ),
            ],
        ),
    }
}

/// What handling the request `msg` does to the server, and what it asks of the event loop.
pub open spec fn notify_effect<S>(m: HandlerModel<S>, msg: ServerMessage) -> (
    HandlerModel<S>,
    Seq<ActionModel>,
) {
    match msg {
        ServerMessage::QUIT => (m, seq![ActionModel::Shutdown]),
        ServerMessage::REMOVE(chan, who) => remove_effect(m, chan@, who@),
        ServerMessage::ADD(chan, who) => add_effect(m, chan@, who@),
        ServerMessage::DISCON(who) => discon_effect(m, who@),
        ServerMessage::SERVMSG(_) => (m, Seq::empty()),
        ServerMessage::CHANMSG(chan, what) => chanmsg_effect(m, chan@, what.model()),
        ServerMessage::USERMSG(who, what) => usermsg_effect(m, who@, what.model()),
        ServerMessage::USERTOKENMSG(_, _) => (m, Seq::empty()),
    }
}

/// The character of the decimal digit `d`.
pub open spec fn digit_char(d: nat) -> char {
    if d == 0 {
        '0'
    } else if d == 1 {
        '1'
    } else if d == 2 {
        '2'
    } else if d == 3 {
        '3'
    } else if d == 4 {
        '4'
    } else if d == 5 {
        '5'
    } else if d == 6 {
        '6'
    } else if d == 7 {
        '7'
    } else if d == 8 {
        '8'
    } else {
        '9'
    }
}

/// `n` written in decimal, without leading zeros.
pub open spec fn decimal(n: nat) -> Seq<char>
    decreases n,
{
    if n < 10 {
        seq![digit_char(n)]
    } else {
        decimal(n / 10).push(digit_char(n % 10))
    }
}

/// The text of the decimal digit `d`.
fn digit_str(d: u32) -> (s: &'static str)
    requires
        d < 10,
    ensures
        s@ == seq![digit_char(d as nat)],
{
    proof {
        reveal_strlit("0");
        reveal_strlit("1");
        reveal_strlit("2");
        reveal_strlit("3");
        reveal_strlit("4");
        reveal_strlit("5");
        reveal_strlit("6");
        reveal_strlit("7");
        reveal_strlit("8");
        reveal_strlit("9");
    }
    if d == 0 {
        "0"
    } else if d == 1 {
        "1"
    } else if d == 2 {
        "2"
    } else if d == 3 {
        "3"
    } else if d == 4 {
        "4"
    } else if d == 5 {
        "5"
    } else if d == 6 {
        "6"
    } else if d == 7 {
        "7"
    } else if d == 8 {
        "8"
    } else {
        "9"
    }
}

/// Appends `n` written in decimal to `s`.
fn append_decimal(s: &mut String, n: u32)
    ensures
        final(s)@ == old(s)@ + decimal(n as nat),
    decreases n,
{
    if n >= 10 {
        append_decimal(s, n / 10);
    }
    s.append(digit_str(n % 10));
}

/// The address the server listens on for the given port: every interface,
/// written `0.0.0.0:<port>`.
pub fn listen_address(port: u32) -> (addr: String)
    ensures
        addr@ == "0.0.0.0:"@ + decimal(port as nat),
{
    let mut addr = "0.0.0.0:".to_owned();
    append_decimal(&mut addr, port);
    addr
}

impl<S> ServerHandler<S> {
    /// The abstract state.
    pub closed spec fn model(&self) -> HandlerModel<S> {
        HandlerModel {
            clients: self.client_list@,
            channels: self.channels.map(),
            token_counter: self.token_counter,
        }
    }

    /// The state is well formed: channel names are distinct, and neither the
    /// counter nor any client stands at the server's token.
    pub closed spec fn wf(&self) -> bool {
        &&& self.channels.wf()
        &&& self.token_counter != SERVER_TOKEN
        &&& !self.client_list@.contains_key(SERVER_TOKEN)
        &&& self.client_list@.dom().finite()
    }

    /// In every well-formed state no client holds the server's token, the
    /// counter does not stand at it, and there are finitely many clients.
    pub proof fn lemma_server_token_unused(&self)
        requires
            self.wf(),
        ensures
            !self.model().clients.contains_key(SERVER_TOKEN),
            self.model().token_counter != SERVER_TOKEN,
            self.model().clients.dom().finite(),
    {
    }

    /// The listening socket.
    pub closed spec fn listener_spec(&self) -> TcpListener {
        self.socket
    }

    /// A server on the listening socket `socket`, with no clients and no
    /// channels; the first client gets token 1.
    pub fn new(socket: TcpListener) -> (s: ServerHandler<S>)
        ensures
            s.wf(),
            s.model().clients == Map::<usize, Client<S>>::empty(),
            s.model().channels == Map::<Seq<char>, Seq<usize>>::empty(),
            s.model().token_counter == 1,
            s.listener_spec() == socket,
    {
        let s = ServerHandler {
            client_list: HashMap::new(),
            channels: ChannelList::new(),
            socket: socket,
            token_counter: 1,
        };
        s
    }

    /// The listening socket.
    pub fn listener(&self) -> (l: &TcpListener)
        ensures
            *l == self.listener_spec(),
    {
        &self.socket
    }

    /// The number of connected clients.
    pub fn client_count(&self) -> (n: usize)
        ensures
            n == self.model().clients.len(),
            self.model().clients.dom().finite(),
    {
        self.client_list.len()
    }

    /// The client with token `token`, if it is connected.
    pub fn client(&self, token: usize) -> (c: Option<&Client<S>>)
        ensures
            match c {
                Some(c) => self.model().clients.contains_key(token) && *c == self.model().clients[token],
                None => !self.model().clients.contains_key(token),
            },
    {
        self.client_list.get(&token)
    }

    /// The members of the channel called `name`, if there is one.
    pub fn channel_members(&self, name: &String) -> (m: Option<&Vec<usize>>)
        requires
            self.wf(),
        ensures
            match m {
                Some(m) => self.model().channels.contains_key(name@) && m@ == self.model().channels[name@],
                None => !self.model().channels.contains_key(name@),
            },
    {
        self.channels.members(name)
    }

    /// The token that was handed out last.
    pub fn token_counter(&self) -> (c: usize)
        ensures
            c == self.model().token_counter,
    {
        self.token_counter
    }

    /// Takes the client with token `token` out of the client list.
    pub fn remove_client(&mut self, token: usize) -> (c: Option<Client<S>>)
        requires
            old(self).wf(),
        ensures
            final(self).wf(),
            final(self).model().clients == old(self).model().clients.remove(token),
            final(self).model().channels == old(self).model().channels,
            final(self).model().token_counter == old(self).model().token_counter,
            final(self).listener_spec() == old(self).listener_spec(),
            match c {
                Some(c) => old(self).model().clients.contains_key(token) && c == old(self).model().clients[token],
                None => !old(self).model().clients.contains_key(token),
            },
    {
        self.client_list.remove(&token)
    }

    /// Puts `client` into the client list under `token`, and hands back the
    /// client that was there before, if any.
    pub fn insert_client(&mut self, token: usize, client: Client<S>) -> (c: Option<Client<S>>)
        requires
            old(self).wf(),
            token != SERVER_TOKEN,
        ensures
            final(self).wf(),
            final(self).model().clients == old(self).model().clients.insert(token, client),
            final(self).model().channels == old(self).model().channels,
            final(self).model().token_counter == old(self).model().token_counter,
            final(self).listener_spec() == old(self).listener_spec(),
            match c {
                Some(c) => old(self).model().clients.contains_key(token) && c == old(self).model().clients[token],
                None => !old(self).model().clients.contains_key(token),
            },
    {
        self.client_list.insert(token, client)
    }

    /// The token of the user called `username`; the smallest one when several
    /// users share the name.
    fn retrieve_token(&self, username: &String) -> (r: Option<usize>)
        ensures
            r == token_of(self.model().clients, username@),
    {
        let mut best: Option<usize> = None;
        for (tok, cli) in it: self.client_list.iter()
            invariant
                it.seq() == spec_hash_map_iter(&self.client_list).remaining(),
                match best {
                    Some(t) => has_user_named(self.client_list@, t, username@) && forall|k: int|
                        0 <= k < it.index() && it.seq()[k].1.irc_user.name@ == username@ ==> t
                            <= *it.seq()[k].0,
                    None => forall|k: int|
                        0 <= k < it.index() ==> it.seq()[k].1.irc_user.name@ != username@,
                },
        {
            if cli.irc_user.name == *username {
                match best {
                    Some(b) => {
                        if *tok < b {
                            best = Some(*tok);
                        }
                    },
                    None => {
                        best = Some(*tok);
                    },
                }
            }
        }
        proof {
            let v = spec_hash_map_iter(&self.client_list).remaining();
            let m = self.client_list@;
            assert forall|u: usize| has_user_named(m, u, username@) implies (match best {
                Some(t) => t <= u,
                None => false,
            }) by {
                assert(v.contains((&u, &m[u])));
                let k = choose|k: int| 0 <= k < v.len() && v[k] == (&u, &m[u]);
                assert(*v[k].0 == u);
            }
            match best {
                Some(t) => {
                    let c = choose|c: usize|
                        has_user_named(m, c, username@) && forall|u: usize|
                            has_user_named(m, u, username@) ==> c <= u;
                    assert(has_user_named(m, c, username@));
                    assert(t <= c);
                },
                None => {},
            }
        }
        best
    }

    /// Registers a client that has just connected on `sock` from `ip`, under
    /// the token of `allocated_token`, which becomes the counter: the first
    /// free client token from the counter on. Only when every client token is
    /// in use does the new client take the counter's token; the client that
    /// held it is then put out and handed back.
    pub fn register_client(&mut self, sock: S, ip: String) -> (res: (usize, Option<Client<S>>))
        requires
            old(self).wf(),
        ensures
            final(self).wf(),
            res.0 == allocated_token(
                old(self).model().token_counter,
                old(self).model().clients.dom(),
            ),
            res.0 != SERVER_TOKEN,
            final(self).model().token_counter == res.0,
            final(self).model().clients.dom() == old(self).model().clients.dom().insert(res.0),
            forall|k: usize|
                k != res.0 && #[trigger] old(self).model().clients.contains_key(k)
                    ==> final(self).model().clients[k] == old(self).model().clients[k],
            is_new_client(final(self).model().clients[res.0], sock, ip@),
            final(self).model().channels == old(self).model().channels,
            final(self).listener_spec() == old(self).listener_spec(),
            match res.1 {
                Some(c) => old(self).model().clients.contains_key(res.0) && c == old(
                    self,
                ).model().clients[res.0],
                None => !old(self).model().clients.contains_key(res.0),
            },
            res.1 is Some ==> !some_token_free(old(self).model().clients.dom()),
            final(self).model().clients.dom().finite(),
            res.1 is None ==> final(self).model().clients.len() == old(self).model().clients.len()
                + 1,
            res.1 is Some ==> final(self).model().clients.len() == old(self).model().clients.len(),
    {
        let ghost taken = self.client_list@.dom();
        let start_counter = self.token_counter;
        let mut new_token = self.token_counter;
        // make sure the token is not taken
        while self.client_list.contains_key(&new_token)
            invariant
                self.wf(),
                self.client_list@ == old(self).client_list@,
                self.channels == old(self).channels,
                self.socket == old(self).socket,
                taken == self.client_list@.dom(),
                start_counter == old(self).token_counter,
                start_counter >= 1,
                new_token == self.token_counter,
                forall|u: usize|
                    u != SERVER_TOKEN && steps_from(start_counter, u) < steps_from(
                        start_counter,
                        self.token_counter,
                    ) ==> taken.contains(u),
            ensures
                self.wf(),
                self.client_list@ == old(self).client_list@,
                self.channels == old(self).channels,
                self.socket == old(self).socket,
                new_token == self.token_counter,
                is_next_free(start_counter, taken, new_token) || (new_token == start_counter
                    && !some_token_free(taken)),
            decreases usize::MAX - steps_from(start_counter, self.token_counter),
        {
            let ghost prev = self.token_counter;
            proof {
                lemma_steps_distinct(start_counter, prev, prev);
            }
            if self.token_counter == usize::MAX {
                self.token_counter = 0;
            }
            self.token_counter = self.token_counter + 1;
            if self.token_counter == start_counter {
                // the whole client list is full, time to kick somebody
                proof {
                    assert(steps_from(start_counter, prev) == usize::MAX - 1);
                    assert forall|u: usize| u != SERVER_TOKEN implies taken.contains(u) by {
                        lemma_steps_distinct(start_counter, u, prev);
                    }
                }
                new_token = start_counter;
                break ;
            }
            proof {
                assert(steps_from(start_counter, self.token_counter) == steps_from(
                    start_counter,
                    prev,
                ) + 1);
                assert forall|u: usize|
                    u != SERVER_TOKEN && steps_from(start_counter, u) < steps_from(
                        start_counter,
                        self.token_counter,
                    ) implies taken.contains(u) by {
                    lemma_steps_distinct(start_counter, u, prev);
                }
            }
            new_token = self.token_counter;
        }
        proof {
            if is_next_free(start_counter, taken, new_token) {
                let f = next_free_token(start_counter, taken);
                assert(is_next_free(start_counter, taken, f));
                lemma_next_free_unique(start_counter, taken, f, new_token);
            }
        }
        let evicted = self.client_list.insert(new_token, Client::new(sock, ip));
        (new_token, evicted)
    }

    /// `REMOVE(chan, who)`: takes the user out of the channel.
    fn remove_from_channel(&mut self, chan: String, who: String) -> (actions: Vec<HandlerAction>)
        requires
            old(self).wf(),
        ensures
            final(self).wf(),
            final(self).model() == remove_effect(old(self).model(), chan@, who@).0,
            action_models(actions@) == remove_effect(old(self).model(), chan@, who@).1,
            final(self).listener_spec() == old(self).listener_spec(),
    {
        let who_token = match self.retrieve_token(&who) {
            Some(x) => x,
            None => {
                return log_action(Level::ERR, disconnected_text(&who));
            },
        };
        let line = match self.channels.remove_member(&chan, who_token) {
            RemoveOutcome::Removed => {
                let mut line = "User \"".to_owned();
                line.append(who.as_str());
                line.append("\" has been removed from the channel \"");
                line.append(chan.as_str());
                line.append("\"");
                return log_action(Level::INFO, line);
            },
            RemoveOutcome::NotMember => {
                let mut line = "User \"".to_owned();
                line.append(who.as_str());
                line.append("\" is not in the channel named ");
                line.append(chan.as_str());
                line
            },
            RemoveOutcome::NoSuchChannel => {
                let mut line = "attempt to remove user \"".to_owned();
                line.append(who.as_str());
                line.append("\" from a non-existant channel");
                line
            },
        };
        log_action(Level::ERR, line)
    }

    /// `ADD(chan, who)`: appends the user to the channel.
    fn add_to_channel(&mut self, chan: String, who: String) -> (actions: Vec<HandlerAction>)
        requires
            old(self).wf(),
        ensures
            final(self).wf(),
            final(self).model() == add_effect(old(self).model(), chan@, who@).0,
            action_models(actions@) == add_effect(old(self).model(), chan@, who@).1,
            final(self).listener_spec() == old(self).listener_spec(),
    {
        let who_token = match self.retrieve_token(&who) {
            Some(x) => x,
            None => {
                return log_action(Level::ERR, disconnected_text(&who));
            },
        };
        self.channels.append_member(chan, who_token);
        let actions: Vec<HandlerAction> = Vec::new();
        assert(action_models(actions@) =~= Seq::<ActionModel>::empty());
        actions
    }

    /// `DISCON(who)`: takes the user out of every channel and out of the client list.
    fn disconnect(&mut self, who: String) -> (actions: Vec<HandlerAction>)
        requires
            old(self).wf(),
        ensures
            final(self).wf(),
            final(self).model() == discon_effect(old(self).model(), who@).0,
            action_models(actions@) == discon_effect(old(self).model(), who@).1,
            final(self).listener_spec() == old(self).listener_spec(),
    {
        let who_token = match self.retrieve_token(&who) {
            Some(x) => x,
            None => {
                let mut line = "User \"".to_owned();
                line.append(who.as_str());
                line.append("\" has already been disconnected");
                return log_action(Level::ERR, line);
            },
        };
        self.channels.remove_everywhere(who_token);
        let _ = self.client_list.remove(&who_token);
        let actions: Vec<HandlerAction> = Vec::new();
        assert(action_models(actions@) =~= Seq::<ActionModel>::empty());
        actions
    }

    /// `CHANMSG(chan, what)`: queues the message for every member of the channel.
    fn channel_message(&self, chan: String, what: Message) -> (actions: Vec<HandlerAction>)
        requires
            self.wf(),
        ensures
            action_models(actions@) == chanmsg_effect(self.model(), chan@, what.model()).1,
    {
        let user_list = match self.channels.members(&chan) {
            Some(x) => x,
            None => {
                let mut line = "channel \"".to_owned();
                line.append(chan.as_str());
                line.append("\" does not exist");
                return log_action(Level::ERR, line);
            },
        };
        let mut actions: Vec<HandlerAction> = Vec::new();
        let mut i: usize = 0;
        while i < user_list.len()
            invariant
                i <= user_list@.len(),
                actions@.len() == i,
                forall|k: int|
                    0 <= k < i ==> #[trigger] actions@[k].model() == ActionModel::QueueForToken(
                        user_list@[k],
                        what.model(),
                    ),
            decreases user_list@.len() - i,
        {
            actions.push(HandlerAction::QueueForToken(user_list[i], what.duplicate()));
            i = i + 1;
        }
        assert(action_models(actions@) =~= user_list@.map_values(
            |t: usize| ActionModel::QueueForToken(t, what.model()),
        ));
        actions
    }

    /// `USERMSG(who, what)`: queues the message for the user and asks for it to
    /// be written to the user's socket.
    fn user_message(&self, who: String, what: Message) -> (actions: Vec<HandlerAction>)
        requires
            self.wf(),
        ensures
            action_models(actions@) == usermsg_effect(self.model(), who@, what.model()).1,
    {
        let user_token = match self.retrieve_token(&who) {
            Some(x) => x,
            None => {
                let mut line = "User with the name ".to_owned();
                line.append(who.as_str());
                line.append(" does not exist");
                return log_action(Level::ERR, line);
            },
        };
        let report = delivery_report(&what, &who);
        queue_and_deliver(user_token, what, report)
    }

    /// Handles a request of the event loop's channel: updates the clients and
    /// channels and says what the event loop has to do (see `notify_effect`).
    pub fn notify(&mut self, msg: ServerMessage) -> (actions: Vec<HandlerAction>)
        requires
            old(self).wf(),
        ensures
            final(self).wf(),
            final(self).model() == notify_effect(old(self).model(), msg).0,
            action_models(actions@) == notify_effect(old(self).model(), msg).1,
            final(self).listener_spec() == old(self).listener_spec(),
    {
        match msg {
            ServerMessage::QUIT => {
                let actions = vec![HandlerAction::Shutdown];
                assert(action_models(actions@) =~= seq![ActionModel::Shutdown]);
                actions
            },
            ServerMessage::REMOVE(chan, who) => self.remove_from_channel(chan, who),
            ServerMessage::ADD(chan, who) => self.add_to_channel(chan, who),
            ServerMessage::DISCON(who) => self.disconnect(who),
            ServerMessage::CHANMSG(chan, what) => self.channel_message(chan, what),
            ServerMessage::USERMSG(who, what) => self.user_message(who, what),
            ServerMessage::SERVMSG(_) | ServerMessage::USERTOKENMSG(_, _) => {
                let actions: Vec<HandlerAction> = Vec::new();
                assert(action_models(actions@) =~= Seq::<ActionModel>::empty());
                actions
            },
        }
    }
}

/// The single action of logging `line` at `level`.
fn log_action(level: Level, line: String) -> (actions: Vec<HandlerAction>)
    ensures
        action_models(actions@) == seq![ActionModel::Log(level, line@)],
{
    let actions = vec![HandlerAction::Log(level, line)];
    assert(action_models(actions@) =~= seq![ActionModel::Log(level, line@)]);
    actions
}

/// The actions for a message to the client with token `t`: queue it, then
/// write it to the client's socket.
fn queue_and_deliver(t: usize, what: Message, report: String) -> (actions: Vec<HandlerAction>)
    ensures
        action_models(actions@) == seq![
            ActionModel::QueueForToken(t, what.model()),
            ActionModel::Deliver(t, what.model(), report@),
        ],
{
    let queued = what.duplicate();
    let ghost expected = seq![
        ActionModel::QueueForToken(t, what.model()),
        ActionModel::Deliver(t, what.model(), report@),
    ];
    let mut actions: Vec<HandlerAction> = Vec::new();
    actions.push(HandlerAction::QueueForToken(t, queued));
    actions.push(HandlerAction::Deliver(t, what, report));
    assert(action_models(actions@) =~= expected);
    actions
}

/// The debug report of a message written to the user called `who`.
fn delivery_report(what: &Message, who: &String) -> (report: String)
    ensures
        report@ == "Message: "@ + display_message(what.model()) + "\nReciever: "@ + who@,
{
    let mut report = "Message: ".to_owned();
    report.append(what.to_string().as_str());
    report.append("\nReciever: ");
    report.append(who.as_str());
    report
}

/// The text of `disconnected_line`.
fn disconnected_text(who: &String) -> (line: String)
    ensures
        line@ == disconnected_line(who@),
{
    let mut line = "User \"".to_owned();
    line.append(who.as_str());
    line.append("\" has disconnected");
    line
}

/// What ADD does for a known user, spelled out.
proof fn lemma_add_effect_known<S>(m: HandlerModel<S>, chan: Seq<char>, who: Seq<char>, t: usize)
    requires
        token_of(m.clients, who) == Some(t),
    ensures
        add_effect(m, chan, who).0 == (HandlerModel {
            clients: m.clients,
            channels: m.channels.insert(chan, members_of(m.channels, chan).push(t)),
            token_counter: m.token_counter,
        }),
{
}

/// What REMOVE does for a known user who is in an existing channel, spelled out.
proof fn lemma_remove_effect_member<S>(m: HandlerModel<S>, chan: Seq<char>, who: Seq<char>, t: usize)
    requires
        token_of(m.clients, who) == Some(t),
        m.channels.contains_key(chan),
        m.channels[chan].contains(t),
    ensures
        remove_effect(m, chan, who).0 == (HandlerModel {
            clients: m.clients,
            channels: m.channels.insert(chan, remove_first(m.channels[chan], t)),
            token_counter: m.token_counter,
        }),
{
}

/// Taking the first `t` out of a list that only has it at its end gives the
/// list before `t` was appended.
proof fn lemma_remove_first_appended(members: Seq<usize>, t: usize)
    requires
        !members.contains(t),
    ensures
        members.push(t).contains(t),
        remove_first(members.push(t), t) == members,
{
    let added = members.push(t);
    assert(added[members.len() as int] == t);
    let i = first_index(added, t);
    assert(i == members.len()) by {
        if i < members.len() {
            assert(members[i] == t);
        }
    }
    assert(added.remove(i) =~= members);
}

/// Removing a user from a channel undoes adding them, when the channel
/// exists and the user was not in it before; when the channel did not exist,
/// it is left behind with no members.
pub proof fn lemma_remove_undoes_add<S>(m: HandlerModel<S>, chan: Seq<char>, who: Seq<char>)
    requires
        token_of(m.clients, who) is Some,
        !members_of(m.channels, chan).contains(token_of(m.clients, who)->0),
    ensures
        m.channels.contains_key(chan) ==> remove_effect(add_effect(m, chan, who).0, chan, who).0 == m,
        !m.channels.contains_key(chan) ==> remove_effect(add_effect(m, chan, who).0, chan, who).0
            == (HandlerModel {
            clients: m.clients,
            channels: m.channels.insert(chan, Seq::empty()),
            token_counter: m.token_counter,
        }),
{
    let t = token_of(m.clients, who)->0;
    let members = members_of(m.channels, chan);
    lemma_add_effect_known(m, chan, who, t);
    let m1 = add_effect(m, chan, who).0;
    assert(m1.channels[chan] == members.push(t));
    lemma_remove_first_appended(members, t);
    lemma_remove_effect_member(m1, chan, who, t);
    let m2 = remove_effect(m1, chan, who).0;
    assert(m2.channels =~= m.channels.insert(chan, members));
    if m.channels.contains_key(chan) {
        assert(m.channels.insert(chan, members) =~= m.channels);
        assert(m2 =~= m);
    } else {
        assert(members =~= Seq::<usize>::empty());
    }
}

/// No request changes the token counter, and only `DISCON` changes the client
/// list: it takes exactly the disconnected user's token out of it.
pub proof fn lemma_requests_keep_clients<S>(m: HandlerModel<S>, msg: ServerMessage)
    ensures
        notify_effect(m, msg).0.token_counter == m.token_counter,
        !(msg is DISCON) ==> notify_effect(m, msg).0.clients == m.clients,
        msg matches ServerMessage::DISCON(who) ==> match token_of(m.clients, who@) {
            Some(t) => notify_effect(m, msg).0.clients == m.clients.remove(t)
                && !notify_effect(m, msg).0.clients.contains_key(t),
            None => notify_effect(m, msg).0 == m,
        },
{
}

/// Requests that only carry messages never change the server's state.
pub proof fn lemma_messages_keep_state<S>(m: HandlerModel<S>, msg: ServerMessage)
    requires
        msg is QUIT || msg is SERVMSG || msg is CHANMSG || msg is USERMSG || msg is USERTOKENMSG,
    ensures
        notify_effect(m, msg).0 == m,
{
}

/// A new client never gets the server's own token.
pub proof fn lemma_allocated_token_not_server(counter: usize, taken: Set<usize>)
    requires
        counter != SERVER_TOKEN,
    ensures
        allocated_token(counter, taken) != SERVER_TOKEN,
{
    if some_token_free(taken) {
        let w = choose|t: usize| t != SERVER_TOKEN && !taken.contains(t);
        lemma_next_free_exists(counter, taken, w);
    }
}

/// A client is put out only when every client token is in use: the token
/// given is free whenever some client token is.
pub proof fn lemma_allocated_token_free(counter: usize, taken: Set<usize>)
    requires
        some_token_free(taken),
    ensures
        !taken.contains(allocated_token(counter, taken)),
{
    let w = choose|t: usize| t != SERVER_TOKEN && !taken.contains(t);
    lemma_next_free_exists(counter, taken, w);
}

/// A user who disconnects leaves every channel, however often they were
/// listed in it, and the client list; every channel keeps its other members.
pub proof fn lemma_disconnect_leaves_every_channel<S>(m: HandlerModel<S>, who: Seq<char>)
    requires
        token_of(m.clients, who) is Some,
    ensures
        ({
            let t = token_of(m.clients, who)->0;
            let after = discon_effect(m, who).0;
            &&& !after.clients.contains_key(t)
            &&& after.channels.dom() == m.channels.dom()
            &&& forall|c: Seq<char>| #[trigger]
                after.channels.contains_key(c) ==> !after.channels[c].contains(t)
            &&& forall|c: Seq<char>, u: usize|
                after.channels.contains_key(c) && u != t ==> (#[trigger] after.channels[c].contains(
                    u,
                ) <==> m.channels[c].contains(u))
        }),
{
    let t = token_of(m.clients, who)->0;
    let after = discon_effect(m, who).0;
    assert(after.channels.dom() =~= m.channels.dom());
    assert forall|c: Seq<char>| #[trigger] after.channels.contains_key(c) implies !after.channels[c].contains(t) by {
        lemma_remove_all_members(m.channels[c], t);
    }
    assert forall|c: Seq<char>, u: usize|
        after.channels.contains_key(c) && u != t implies (#[trigger] after.channels[c].contains(u)
        <==> m.channels[c].contains(u)) by {
        lemma_remove_all_members(m.channels[c], t);
    }
}

} // verus!

verus! {

/// The number a decimal digit character stands for, or -1 for any other character.
pub open spec fn digit_value(c: char) -> int {
    if c == '0' {
        0
    } else if c == '1' {
        1
    } else if c == '2' {
        2
    } else if c == '3' {
        3
    } else if c == '4' {
        4
    } else if c == '5' {
        5
    } else if c == '6' {
        6
    } else if c == '7' {
        7
    } else if c == '8' {
        8
    } else if c == '9' {
        9
    } else {
        -1
    }
}

/// The number that a string of decimal digits reads as, most significant digit first.
pub open spec fn numeral_value(s: Seq<char>) -> int
    decreases s.len(),
{
    if s.len() == 0 {
        0
    } else {
        numeral_value(s.drop_last()) * 10 + digit_value(s.last())
    }
}

/// `decimal(n)` is the usual base-10 numeral of `n`: one or more decimal
/// digits, without a leading zero unless `n` is 0, that read back as `n`.
pub proof fn lemma_decimal_reads_back(n: nat)
    ensures
        decimal(n).len() >= 1,
        forall|i: int| 0 <= i < decimal(n).len() ==> 0 <= #[trigger] digit_value(decimal(n)[i]) <= 9,
        numeral_value(decimal(n)) == n,
        n >= 10 ==> decimal(n)[0] != '0',
        n < 10 ==> decimal(n).len() == 1,
    decreases n,
{
    if n >= 10 {
        let q = n / 10;
        let r = n % 10;
        lemma_decimal_reads_back(q);
        let d = decimal(n);
        assert(d == decimal(q).push(digit_char(r)));
        assert(d.drop_last() =~= decimal(q));
        assert(digit_value(digit_char(r)) == r);
        assert(q * 10 + r == n) by (nonlinear_arith)
            requires
                q == n / 10,
                r == n % 10,
        ;
        assert forall|i: int| 0 <= i < d.len() implies 0 <= #[trigger] digit_value(d[i]) <= 9 by {
            if i < d.len() - 1 {
                assert(d[i] == decimal(q)[i]);
            }
        }
        assert(d[0] == decimal(q)[0]);
        if q < 10 {
            assert(q >= 1);
            assert(decimal(q)[0] == digit_char(q));
        }
        assert(numeral_value(d) == numeral_value(decimal(q)) * 10 + digit_value(digit_char(r)));
    } else {
        let d = decimal(n);
        assert(d.drop_last() =~= Seq::<char>::empty());
        assert(digit_value(digit_char(n)) == n);
        assert(numeral_value(d) == numeral_value(d.drop_last()) * 10 + digit_value(d.last()));
    }
}

/// The listening address is `0.0.0.0:` followed by the port's base-10
/// numeral: digits without a leading zero that read back as the port.
pub proof fn lemma_listen_address_port(port: u32, addr: Seq<char>)
    requires
        addr == "0.0.0.0:"@ + decimal(port as nat),
    ensures
        addr.subrange(0, "0.0.0.0:"@.len() as int) == "0.0.0.0:"@,
        numeral_value(addr.skip("0.0.0.0:"@.len() as int)) == port,
        addr.len() > "0.0.0.0:"@.len(),
        port >= 10 ==> addr["0.0.0.0:"@.len() as int] != '0',
{
    lemma_decimal_reads_back(port as nat);
    assert(addr.subrange(0, "0.0.0.0:"@.len() as int) =~= "0.0.0.0:"@);
    assert(addr.skip("0.0.0.0:"@.len() as int) =~= decimal(port as nat));
}

} // verus!
