use vstd::prelude::*;

verus! {

/// An IRC user as the server knows it.
pub struct User {
    pub name: String,
    pub host: String,
    pub nick: String,
    pub real: String,
    pub mode: u8,
}

impl User {
    /// The text a user stands for in a message: `:nick!name@host`.
    pub open spec fn display(&self) -> Seq<char> {
        ":"@ + self.nick@ + "!"@ + self.name@ + "@"@ + self.host@
    }

    /// A user that has only connected: every name is empty and the mode is 255.
    pub fn new(host: String) -> (u: User)
        ensures
            u.name@ == Seq::<char>::empty(),
            u.real@ == Seq::<char>::empty(),
            u.nick@ == Seq::<char>::empty(),
            u.host == host,
            u.mode == 255,
    {
        User { name: String::new(), real: String::new(), nick: String::new(), host: host, mode: 255 }
    }

    /// The user written as a message prefix, `:nick!name@host`.
    pub fn to_string(&self) -> (s: String)
        ensures
            s@ == self.display(),
    {
        let mut s = ":".to_owned();
        s.append(self.nick.as_str());
        s.append("!");
        s.append(self.name.as_str());
        s.append("@");
        s.append(self.host.as_str());
        s
    }
}

} // verus!

verus! {

/// The text of a user depends on its nickname, user name and host only: the
/// real name and the mode never change it.
pub proof fn lemma_display_ignores_real_and_mode(u1: User, u2: User)
    requires
        u1.nick@ == u2.nick@,
        u1.name@ == u2.name@,
        u1.host@ == u2.host@,
    ensures
        u1.display() == u2.display(),
{
}

/// The text of a user holds, after `:`, the nickname, `!`, the user name
/// itself, `@` and the host, each at its own place.
pub proof fn lemma_display_parts(u: User)
    ensures
        u.display().len() == u.nick@.len() + u.name@.len() + u.host@.len() + 3,
        u.display()[0] == ':',
        u.display().subrange(1, 1 + u.nick@.len() as int) == u.nick@,
        u.display()[1 + u.nick@.len() as int] == '!',
        u.display().subrange(2 + u.nick@.len() as int, (2 + u.nick@.len() + u.name@.len()) as int)
            == u.name@,
        u.display()[(2 + u.nick@.len() + u.name@.len()) as int] == '@',
        u.display().subrange((3 + u.nick@.len() + u.name@.len()) as int, u.display().len() as int)
            == u.host@,
{
    reveal_strlit(":");
    reveal_strlit("!");
    reveal_strlit("@");
    let d = u.display();
    let a = u.nick@.len() as int;
    let b = u.name@.len() as int;
    assert(d.subrange(1, 1 + a) =~= u.nick@);
    assert(d.subrange(2 + a, 2 + a + b) =~= u.name@);
    assert(d.subrange(3 + a + b, d.len() as int) =~= u.host@);
}

} // verus!
