use crate::irc::user::User;
use mio::tcp::TcpStream;
use vstd::prelude::*;

verus! {

/// A connected client: its socket and the IRC user behind it. The socket is
/// only carried; the event loop's streams are what it holds in the server.
pub struct Client<S = TcpStream> {
    pub socket: S,
    pub irc_user: User,
}

/// `c` is the client that has just connected on `sock` from `ip`: the socket
/// is `sock`, the host is `ip`, every name is empty and the mode is 255.
pub open spec fn is_new_client<S>(c: Client<S>, sock: S, ip: Seq<char>) -> bool {
    &&& c.socket == sock
    &&& c.irc_user.host@ == ip
    &&& c.irc_user.name@ == Seq::<char>::empty()
    &&& c.irc_user.real@ == Seq::<char>::empty()
    &&& c.irc_user.nick@ == Seq::<char>::empty()
    &&& c.irc_user.mode == 255
}

/// The user's fields other than the nickname are those of `before`.
pub open spec fn same_but_nick(before: User, after: User) -> bool {
    after.name == before.name && after.host == before.host && after.real == before.real
        && after.mode == before.mode
}

/// The user's fields other than the real name are those of `before`.
pub open spec fn same_but_real(before: User, after: User) -> bool {
    after.name == before.name && after.host == before.host && after.nick == before.nick
        && after.mode == before.mode
}

/// The user's fields other than the mode are those of `before`.
pub open spec fn same_but_mode(before: User, after: User) -> bool {
    after.name == before.name && after.host == before.host && after.nick == before.nick
        && after.real == before.real
}

/// The user's fields other than the user name are those of `before`.
pub open spec fn same_but_name(before: User, after: User) -> bool {
    after.host == before.host && after.nick == before.nick && after.real == before.real
        && after.mode == before.mode
}

/// What `set_real(real)` does to a client: the real name can be set only while
/// it is empty; otherwise the call fails and changes nothing.
pub open spec fn set_real_post<S>(before: Client<S>, after: Client<S>, real_name: String, res: Result<(), &'static str>) -> bool {
    &&& after.socket == before.socket
    &&& (res is Ok <==> before.irc_user.real@.len() == 0)
    &&& res is Ok ==> after.irc_user.real == real_name && same_but_real(before.irc_user, after.irc_user)
    &&& res is Err ==> res == Err::<(), &'static str>("Real name has already been set")
        && after.irc_user == before.irc_user
}

/// What `set_username(name)` does to a client: the user name can be set only
/// while it is empty; otherwise the call fails and changes nothing.
pub open spec fn set_username_post<S>(before: Client<S>, after: Client<S>, name: String, res: Result<(), &'static str>) -> bool {
    &&& after.socket == before.socket
    &&& (res is Ok <==> before.irc_user.name@.len() == 0)
    &&& res is Ok ==> after.irc_user.name == name && same_but_name(before.irc_user, after.irc_user)
    &&& res is Err ==> res == Err::<(), &'static str>("Username has already been set")
        && after.irc_user == before.irc_user
}

/// What `set_nick(nick)` does to a client: only the nickname changes.
pub open spec fn set_nick_post<S>(before: Client<S>, after: Client<S>, nick: String) -> bool {
    &&& after.socket == before.socket
    &&& after.irc_user.nick == nick
    &&& same_but_nick(before.irc_user, after.irc_user)
}

/// What `set_mode(mode)` does to a client: only the mode changes.
pub open spec fn set_mode_post<S>(before: Client<S>, after: Client<S>, mode: u8) -> bool {
    &&& after.socket == before.socket
    &&& after.irc_user.mode == mode
    &&& same_but_mode(before.irc_user, after.irc_user)
}

/// `after` is what one call of a client method made of `before`.
pub open spec fn client_call<S>(before: Client<S>, after: Client<S>) -> bool {
    ||| exists|nick: String| set_nick_post(before, after, nick)
    ||| exists|mode: u8| set_mode_post(before, after, mode)
    ||| exists|r: String, res: Result<(), &'static str>| set_real_post(before, after, r, res)
    ||| exists|n: String, res: Result<(), &'static str>| set_username_post(before, after, n, res)
}

impl<S> Client<S> {
    /// The client that has just connected on `sock` from the address `ip`.
    pub fn new(sock: S, ip: String) -> (c: Client<S>)
        ensures
            is_new_client(c, sock, ip@),
    {
        Client { socket: sock, irc_user: User::new(ip) }
    }

    /// Sets the nickname; it can be changed at any time.
    pub fn set_nick(&mut self, nick: String)
        ensures
            set_nick_post(*old(self), *final(self), nick),
    {
        self.irc_user.nick = nick;
    }

    /// Sets the real name, which can be set once.
    pub fn set_real(&mut self, real_name: String) -> (res: Result<(), &'static str>)
        ensures
            set_real_post(*old(self), *final(self), real_name, res),
    {
        if self.irc_user.real.as_str().is_empty() {
            self.irc_user.real = real_name;
            Ok(())
        } else {
            Err("Real name has already been set")
        }
    }

    /// Sets the user mode.
    pub fn set_mode(&mut self, mode: u8)
        ensures
            set_mode_post(*old(self), *final(self), mode),
    {
        self.irc_user.mode = mode;
    }

    /// Sets the user name, which can be set once.
    pub fn set_username(&mut self, username: String) -> (res: Result<(), &'static str>)
        ensures
            set_username_post(*old(self), *final(self), username, res),
    {
        if self.irc_user.name.as_str().is_empty() {
            self.irc_user.name = username;
            Ok(())
        } else {
            Err("Username has already been set")
        }
    }
}

/// Once the real name is not empty, it stays as it is through any sequence of
/// client calls, and every later `set_real` fails and changes nothing.
pub proof fn lemma_real_name_write_once<S>(calls: Seq<Client<S>>)
    requires
        calls.len() >= 1,
        calls[0].irc_user.real@.len() > 0,
        forall|i: int| 0 <= i < calls.len() - 1 ==> #[trigger] client_call(calls[i], calls[i + 1]),
    ensures
        forall|i: int| 0 <= i < calls.len() ==> #[trigger] calls[i].irc_user.real == calls[0].irc_user.real,
        forall|after: Client<S>, r: String, res: Result<(), &'static str>|
            #[trigger] set_real_post(calls.last(), after, r, res) ==> res is Err && after.irc_user
                == calls.last().irc_user,
    decreases calls.len(),
{
    if calls.len() > 1 {
        let init = calls.drop_last();
        assert forall|i: int| 0 <= i < init.len() - 1 implies #[trigger] client_call(init[i], init[i + 1]) by {
            assert(client_call(calls[i], calls[i + 1]));
        }
        lemma_real_name_write_once(init);
        let n = calls.len() - 1;
        let k = n - 1;
        assert(client_call(calls[k], calls[k + 1]));
        assert(init[n - 1] == calls[n - 1]);
        assert forall|i: int| 0 <= i < calls.len() implies #[trigger] calls[i].irc_user.real
            == calls[0].irc_user.real by {
            if i < n {
                assert(init[i] == calls[i]);
            }
        }
    }
}

/// Once the user name is not empty, it stays as it is through any sequence of
/// client calls, and every later `set_username` fails and changes nothing.
pub proof fn lemma_username_write_once<S>(calls: Seq<Client<S>>)
    requires
        calls.len() >= 1,
        calls[0].irc_user.name@.len() > 0,
        forall|i: int| 0 <= i < calls.len() - 1 ==> #[trigger] client_call(calls[i], calls[i + 1]),
    ensures
        forall|i: int| 0 <= i < calls.len() ==> #[trigger] calls[i].irc_user.name == calls[0].irc_user.name,
        forall|after: Client<S>, n: String, res: Result<(), &'static str>|
            #[trigger] set_username_post(calls.last(), after, n, res) ==> res is Err
                && after.irc_user == calls.last().irc_user,
    decreases calls.len(),
{
    if calls.len() > 1 {
        let init = calls.drop_last();
        assert forall|i: int| 0 <= i < init.len() - 1 implies #[trigger] client_call(init[i], init[i + 1]) by {
            assert(client_call(calls[i], calls[i + 1]));
        }
        lemma_username_write_once(init);
        let n = calls.len() - 1;
        let k = n - 1;
        assert(client_call(calls[k], calls[k + 1]));
        assert(init[n - 1] == calls[n - 1]);
        assert forall|i: int| 0 <= i < calls.len() implies #[trigger] calls[i].irc_user.name
            == calls[0].irc_user.name by {
            if i < n {
                assert(init[i] == calls[i]);
            }
        }
    }
}

} // verus!
