use crate::irc::user::User;
use vstd::prelude::*;

verus! {

/// What one part of the server asks the event loop to do.
pub enum ServerMessage {
    /// Stop the server.
    QUIT,
    /// Take the user (second) out of the channel (first).
    REMOVE(String, String),
    /// Put the user (second) into the channel (first).
    ADD(String, String),
    /// The user has disconnected.
    DISCON(String),
    /// A message for the server itself.
    SERVMSG(Message),
    /// A message for every member of the channel.
    CHANMSG(String, Message),
    /// A message for the user with this name.
    USERMSG(String, Message),
    /// A message for the client with this event-loop token.
    USERTOKENMSG(usize, Message),
}

/// A parsed IRC message.
pub struct Message {
    pub prefix: String,
    pub command: String,
    pub parameters: Vec<String>,
}

/// The abstract content of a message: its three parts as character sequences.
pub struct MessageModel {
    pub prefix: Seq<char>,
    pub command: Seq<char>,
    pub parameters: Seq<Seq<char>>,
}

/// The character sequences of a list of strings.
pub open spec fn string_views(v: Seq<String>) -> Seq<Seq<char>> {
    v.map_values(|s: String| s@)
}

/// The pieces of `s` between single spaces, empty pieces included, in the
/// way `str::split(' ')` cuts a string: a string with `k` spaces has `k + 1` pieces.
pub open spec fn split_spaces(s: Seq<char>) -> Seq<Seq<char>>
    decreases s.len(),
{
    if s.len() == 0 {
        seq![Seq::<char>::empty()]
    } else {
        let init = split_spaces(s.drop_last());
        if s.last() == ' ' {
            init.push(Seq::<char>::empty())
        } else {
            init.update(init.len() - 1, init.last().push(s.last()))
        }
    }
}

/// Scans the pieces after the command from left to right. The result holds the
/// middle parameters (non-empty pieces not starting with `:`), and, once a piece
/// starting with `:` has been met, the trailing parameter: that piece and every
/// later one, joined again by single spaces, so that it keeps its colon and its
/// spaces. Empty pieces before the trailing parameter are skipped.
pub open spec fn scan_params(pieces: Seq<Seq<char>>) -> (Seq<Seq<char>>, Option<Seq<char>>)
    decreases pieces.len(),
{
    if pieces.len() == 0 {
        (Seq::empty(), None)
    } else {
        let (middle, trailing) = scan_params(pieces.drop_last());
        let p = pieces.last();
        match trailing {
            Some(t) => (middle, Some(t + " "@ + p)),
            None => if p.len() == 0 {
                (middle, None)
            } else if p[0] == ':' {
                (middle, Some(p))
            } else {
                (middle.push(p), None)
            },
        }
    }
}

/// The parameter list of a message: the middle parameters, then the trailing
/// parameter, which is empty when no piece started with `:`.
pub open spec fn message_parameters(pieces: Seq<Seq<char>>) -> Seq<Seq<char>> {
    let (middle, trailing) = scan_params(pieces);
    middle.push(
        match trailing {
            Some(t) => t,
            None => Seq::empty(),
        },
    )
}

/// The message that `raw` stands for when `sender_prefix` is the text of its
/// sender, or `None` when `raw` is not a message.
pub open spec fn parse_message(raw: Seq<char>, sender_prefix: Seq<char>) -> Option<MessageModel> {
    if raw.len() == 0 {
        None
    } else {
        let parts = split_spaces(raw);
        if raw[0] == ':' {
            if parts.len() < 2 {
                None
            } else {
                Some(
                    MessageModel {
                        prefix: parts[0],
                        command: parts[1],
                        parameters: message_parameters(parts.skip(2)),
                    },
                )
            }
        } else {
            Some(
                MessageModel {
                    prefix: sender_prefix,
                    command: parts[0],
                    parameters: message_parameters(parts.skip(1)),
                },
            )
        }
    }
}

/// The parameters as they are written out: each one followed by a space.
pub open spec fn join_params(ps: Seq<Seq<char>>) -> Seq<char>
    decreases ps.len(),
{
    if ps.len() == 0 {
        Seq::empty()
    } else {
        join_params(ps.drop_last()) + ps.last() + " "@
    }
}

/// The text of a message: prefix, command and the written-out parameters,
/// separated by single spaces.
pub open spec fn display_message(m: MessageModel) -> Seq<char> {
    m.prefix + " "@ + m.command + " "@ + join_params(m.parameters)
}

/// `split_spaces` always yields at least one piece.
pub proof fn lemma_split_spaces_nonempty(s: Seq<char>)
    ensures
        split_spaces(s).len() >= 1,
    decreases s.len(),
{
    if s.len() > 0 {
        lemma_split_spaces_nonempty(s.drop_last());
    }
}

/// A string is cut into at least two pieces exactly when it holds a space.
pub proof fn lemma_split_spaces_two_pieces(s: Seq<char>)
    ensures
        split_spaces(s).len() >= 2 <==> s.contains(' '),
    decreases s.len(),
{
    lemma_split_spaces_nonempty(s);
    if s.len() > 0 {
        let init = s.drop_last();
        lemma_split_spaces_two_pieces(init);
        lemma_split_spaces_nonempty(init);
        if init.contains(' ') {
            let k = choose|k: int| 0 <= k < init.len() && init[k] == ' ';
            assert(s[k] == ' ');
        }
        if s.contains(' ') && s.last() != ' ' {
            let k = choose|k: int| 0 <= k < s.len() && s[k] == ' ';
            assert(k < s.len() - 1);
            assert(init[k] == ' ');
        }
        if s.last() == ' ' {
            assert(s[s.len() - 1] == ' ');
        }
    }
}

/// Every middle parameter is non-empty and does not start with `:`.
pub proof fn lemma_middle_params_shape(pieces: Seq<Seq<char>>)
    ensures
        forall|i: int|
            0 <= i < scan_params(pieces).0.len() ==> #[trigger] scan_params(pieces).0[i].len() > 0
                && scan_params(pieces).0[i][0] != ':',
    decreases pieces.len(),
{
    if pieces.len() > 0 {
        let init = pieces.drop_last();
        lemma_middle_params_shape(init);
        let prev = scan_params(init).0;
        let p = pieces.last();
        let cur = scan_params(pieces).0;
        assert forall|i: int| 0 <= i < cur.len() implies #[trigger] cur[i].len() > 0 && cur[i][0]
            != ':' by {
            if i < prev.len() {
                assert(cur[i] == prev[i]);
            } else {
                assert(cur[i] == p);
            }
        }
    }
}

/// A parsed message always has at least one parameter, the trailing one, and
/// every parameter before it is non-empty and does not start with `:`.
pub proof fn lemma_parameters_shape(pieces: Seq<Seq<char>>)
    ensures
        message_parameters(pieces).len() >= 1,
        forall|i: int|
            0 <= i < message_parameters(pieces).len() - 1 ==> #[trigger] message_parameters(
                pieces,
            )[i].len() > 0 && message_parameters(pieces)[i][0] != ':',
{
    lemma_middle_params_shape(pieces);
    let middle = scan_params(pieces).0;
    assert forall|i: int| 0 <= i < message_parameters(pieces).len() - 1 implies #[trigger] message_parameters(
        pieces,
    )[i].len() > 0 && message_parameters(pieces)[i][0] != ':' by {
        assert(message_parameters(pieces)[i] == middle[i]);
    }
}

/// The pieces written one after another, each after a single space.
pub open spec fn spaced(ps: Seq<Seq<char>>) -> Seq<char>
    decreases ps.len(),
{
    if ps.len() == 0 {
        Seq::empty()
    } else {
        spaced(ps.drop_last()) + " "@ + ps.last()
    }
}

/// A parsed message written back as a line: the prefix and a space when the
/// line named its prefix, the command, each middle parameter after a space,
/// and the trailing parameter after a space unless it is empty.
pub open spec fn unparse(m: MessageModel, named_prefix: bool) -> Seq<char> {
    let n = m.parameters.len();
    let trailing = m.parameters[n - 1];
    (if named_prefix {
        m.prefix + " "@
    } else {
        Seq::empty()
    }) + m.command + spaced(m.parameters.take(n - 1)) + (if trailing.len() == 0 {
        Seq::empty()
    } else {
        " "@ + trailing
    })
}

/// No two spaces follow each other in `s`.
pub open spec fn no_double_space(s: Seq<char>) -> bool {
    forall|i: int| 0 <= i < s.len() - 1 ==> !(#[trigger] s[i] == ' ' && s[i + 1] == ' ')
}

/// Writing the first piece, then the others each after a space, gives the line back.
pub proof fn lemma_split_spaces_join(s: Seq<char>)
    ensures
        split_spaces(s).len() >= 1,
        split_spaces(s)[0] + spaced(split_spaces(s).skip(1)) == s,
    decreases s.len(),
{
    lemma_split_spaces_nonempty(s);
    if s.len() == 0 {
        assert(split_spaces(s).skip(1) =~= Seq::<Seq<char>>::empty());
        assert(split_spaces(s)[0] + spaced(split_spaces(s).skip(1)) =~= s);
    } else {
        let init = s.drop_last();
        let c = s.last();
        lemma_split_spaces_join(init);
        let pi = split_spaces(init);
        let ps = split_spaces(s);
        if c == ' ' {
            assert(ps == pi.push(Seq::<char>::empty()));
            assert(ps.skip(1) =~= pi.skip(1).push(Seq::<char>::empty()));
            assert(ps.skip(1).drop_last() =~= pi.skip(1));
            assert(ps[0] == pi[0]);
            assert(spaced(ps.skip(1)) == spaced(pi.skip(1)) + " "@ + Seq::<char>::empty());
            reveal_strlit(" ");
            assert(s =~= init + " "@);
            assert(ps[0] + spaced(ps.skip(1)) =~= pi[0] + spaced(pi.skip(1)) + " "@);
        } else {
            assert(ps == pi.update(pi.len() - 1, pi.last().push(c)));
            if pi.len() == 1 {
                assert(ps.skip(1) =~= Seq::<Seq<char>>::empty());
                assert(pi.skip(1) =~= Seq::<Seq<char>>::empty());
                assert(ps[0] + spaced(ps.skip(1)) =~= s);
            } else {
                let qi = pi.skip(1);
                let q = ps.skip(1);
                assert(q =~= qi.update(qi.len() - 1, qi.last().push(c)));
                assert(q.drop_last() =~= qi.drop_last());
                assert(spaced(q) =~= spaced(qi).push(c));
                assert(ps[0] == pi[0]);
                assert(s =~= init.push(c));
                assert(ps[0] + spaced(ps.skip(1)) =~= (pi[0] + spaced(qi)).push(c));
            }
        }
    }
}

/// In a line with no two spaces in a row, no piece but the first and the
/// last is empty; the last is not empty either when the line does not end
/// with a space.
pub proof fn lemma_split_spaces_pieces_nonempty(s: Seq<char>)
    requires
        no_double_space(s),
    ensures
        forall|i: int|
            1 <= i < split_spaces(s).len() - 1 ==> #[trigger] split_spaces(s)[i].len() > 0,
        s.len() > 0 && s.last() != ' ' ==> split_spaces(s).last().len() > 0,
    decreases s.len(),
{
    lemma_split_spaces_nonempty(s);
    if s.len() > 0 {
        let init = s.drop_last();
        assert(no_double_space(init)) by {
            assert forall|i: int| 0 <= i < init.len() - 1 implies !(#[trigger] init[i] == ' '
                && init[i + 1] == ' ') by {
                assert(s[i] == init[i] && s[i + 1] == init[i + 1]);
            }
        }
        lemma_split_spaces_pieces_nonempty(init);
        lemma_split_spaces_nonempty(init);
        let pi = split_spaces(init);
        let ps = split_spaces(s);
        if s.last() == ' ' {
            if init.len() > 0 {
                assert(s[init.len() - 1] == init.last());
                assert(init.last() != ' ');
            }
            assert forall|i: int| 1 <= i < ps.len() - 1 implies #[trigger] ps[i].len() > 0 by {
                assert(ps[i] == pi[i]);
            }
        } else {
            assert forall|i: int| 1 <= i < ps.len() - 1 implies #[trigger] ps[i].len() > 0 by {
                assert(ps[i] == pi[i]);
            }
        }
    }
}

/// `spaced` also takes its first piece off the front.
pub proof fn lemma_spaced_front(ps: Seq<Seq<char>>)
    requires
        ps.len() >= 1,
    ensures
        spaced(ps) == " "@ + ps[0] + spaced(ps.skip(1)),
    decreases ps.len(),
{
    if ps.len() == 1 {
        assert(ps.skip(1) =~= Seq::<Seq<char>>::empty());
        assert(ps.drop_last() =~= Seq::<Seq<char>>::empty());
        assert(spaced(ps) =~= " "@ + ps[0] + spaced(ps.skip(1)));
    } else {
        lemma_spaced_front(ps.drop_last());
        assert(ps.drop_last().skip(1) =~= ps.skip(1).drop_last());
        assert(spaced(ps) =~= " "@ + ps[0] + spaced(ps.skip(1)));
    }
}

/// For pieces none of which is empty, the middle parameters each after a
/// space, then the trailing parameter after a space, give the pieces back.
pub proof fn lemma_scan_params_spaced(qs: Seq<Seq<char>>)
    requires
        forall|i: int| 0 <= i < qs.len() ==> #[trigger] qs[i].len() > 0,
    ensures
        ({
            let (middle, trailing) = scan_params(qs);
            &&& spaced(middle) + (match trailing {
                Some(t) => " "@ + t,
                None => Seq::<char>::empty(),
            }) == spaced(qs)
            &&& trailing matches Some(t) ==> t.len() > 0
        }),
    decreases qs.len(),
{
    if qs.len() > 0 {
        let init = qs.drop_last();
        assert forall|i: int| 0 <= i < init.len() implies #[trigger] init[i].len() > 0 by {
            assert(init[i] == qs[i]);
        }
        lemma_scan_params_spaced(init);
        let p = qs.last();
        assert(p.len() > 0);
        let (mi, ti) = scan_params(init);
        match ti {
            Some(t) => {
                assert(spaced(mi) + (" "@ + (t + " "@ + p)) =~= spaced(mi) + (" "@ + t) + " "@ + p);
            },
            None => {
                assert(spaced(mi) =~= spaced(mi) + Seq::<char>::empty());
                if p[0] != ':' {
                    assert(mi.push(p).drop_last() =~= mi);
                }
                assert(spaced(mi) + (" "@ + p) =~= spaced(mi) + " "@ + p);
            },
        }
    }
}

/// A line with no two spaces in a row that does not end with a space is
/// written back exactly by `unparse` from its parsed message.
pub proof fn lemma_parse_unparse(raw: Seq<char>, sender_prefix: Seq<char>)
    requires
        no_double_space(raw),
        raw.len() > 0,
        raw.last() != ' ',
        parse_message(raw, sender_prefix) is Some,
    ensures
        unparse(parse_message(raw, sender_prefix)->0, raw[0] == ':') == raw,
{
    let ps = split_spaces(raw);
    lemma_split_spaces_join(raw);
    lemma_split_spaces_pieces_nonempty(raw);
    let m = parse_message(raw, sender_prefix)->0;
    let k: int = if raw[0] == ':' { 2 } else { 1 };
    let qs = ps.skip(k);
    assert forall|i: int| 0 <= i < qs.len() implies #[trigger] qs[i].len() > 0 by {
        assert(qs[i] == ps[i + k]);
    }
    lemma_scan_params_spaced(qs);
    let (middle, trailing) = scan_params(qs);
    let params = message_parameters(qs);
    assert(params.take(params.len() - 1) =~= middle);
    let tail = if params[params.len() - 1].len() == 0 {
        Seq::<char>::empty()
    } else {
        " "@ + params[params.len() - 1]
    };
    assert(spaced(middle) + tail == spaced(qs));
    if raw[0] == ':' {
        lemma_spaced_front(ps.skip(1));
        assert(ps.skip(1).skip(1) =~= qs);
        assert(ps.skip(1)[0] == ps[1]);
        assert(unparse(m, true) =~= raw);
    } else {
        assert(unparse(m, false) =~= raw);
    }
}

impl Message {
    /// The abstract content of this message.
    pub open spec fn model(&self) -> MessageModel {
        MessageModel {
            prefix: self.prefix@,
            command: self.command@,
            parameters: string_views(self.parameters@),
        }
    }

    /// Parses a raw line from `sender`. A line that starts with `:` names its
    /// own prefix before the first space; otherwise the sender's text is the
    /// prefix. The piece after the prefix (or the first piece) is the command,
    /// the rest are parameters (see `message_parameters`).
    /// Fails with "Empty String" on an empty line, and with "The Message is
    /// not a complete string" on a line that starts with `:` and has no space.
    pub fn new(raw_input: String, sender: &User) -> (res: Result<Message, &'static str>)
        ensures
            res is Err <==> (raw_input@.len() == 0 || (raw_input@[0] == ':' && !raw_input@.contains(' '))),
            raw_input@.len() == 0 ==> res == Err::<Message, &'static str>("Empty String"),
            raw_input@.len() != 0 && res is Err ==> res == Err::<Message, &'static str>(
                "The Message is not a complete string",
            ),
            match parse_message(raw_input@, sender.display()) {
                Some(m) => res matches Ok(msg) && msg.model() == m,
                None => res is Err,
            },
    {
        let raw = raw_input.as_str();
        let n = raw.unicode_len();
        if n == 0 {
            return Err("Empty String");
        }
        let ghost s = raw@;
        let colon = raw.get_char(0) == ':';
        let drain_split: usize = if colon { 2 } else { 1 };
        // cut the line at every space
        let mut parts: Vec<String> = Vec::new();
        let mut start: usize = 0;
        let mut i: usize = 0;
        assert(s.take(0) =~= Seq::<char>::empty());
        assert(string_views(parts@) =~= Seq::<Seq<char>>::empty());
        while i < n
            invariant
                n == s.len(),
                raw@ == s,
                start <= i <= n,
                split_spaces(s.take(i as int)) == string_views(parts@).push(
                    s.subrange(start as int, i as int),
                ),
            decreases n - i,
        {
            let c = raw.get_char(i);
            assert(s.take(i + 1).drop_last() == s.take(i as int));
            assert(s.take(i + 1).last() == c);
            if c == ' ' {
                let ghost prev = string_views(parts@);
                let piece = raw.substring_char(start, i).to_owned();
                parts.push(piece);
                assert(string_views(parts@) =~= prev.push(s.subrange(start as int, i as int)));
                start = i + 1;
                assert(s.subrange(start as int, i + 1) =~= Seq::<char>::empty());
            } else {
                assert(s.subrange(start as int, i + 1) == s.subrange(start as int, i as int).push(
                    c,
                ));
            }
            i = i + 1;
        }
        let last_piece = raw.substring_char(start, n).to_owned();
        parts.push(last_piece);
        assert(s.take(n as int) == s);
        assert(string_views(parts@) == split_spaces(s));
        proof {
            lemma_split_spaces_two_pieces(s);
            lemma_split_spaces_nonempty(s);
        }
        if parts.len() < drain_split {
            return Err("The Message is not a complete string");
        }
        let ghost pieces = split_spaces(s).skip(drain_split as int);
        // collect the parameters
        let mut obj_parameters: Vec<String> = Vec::new();
        let mut final_para = false;
        let mut final_para_string = String::new();
        let mut j: usize = drain_split;
        while j < parts.len()
            invariant
                drain_split <= j <= parts.len(),
                string_views(parts@) == split_spaces(s),
                pieces == split_spaces(s).skip(drain_split as int),
                scan_params(pieces.take(j - drain_split)) == (
                    string_views(obj_parameters@),
                    if final_para {
                        Some(final_para_string@)
                    } else {
                        None::<Seq<char>>
                    },
                ),
                !final_para ==> final_para_string@ == Seq::<char>::empty(),
            decreases parts.len() - j,
        {
            let para = parts[j].as_str();
            let ghost before = pieces.take(j - drain_split);
            let ghost next = pieces.take(j + 1 - drain_split);
            assert(next.drop_last() =~= before);
            assert(next.last() == para@);
            let ghost prev_state = scan_params(before);
            assert(scan_params(next) == {
                let (middle, trailing) = prev_state;
                match trailing {
                    Some(t) => (middle, Some(t + " "@ + para@)),
                    None => if para@.len() == 0 {
                        (middle, None)
                    } else if para@[0] == ':' {
                        (middle, Some(para@))
                    } else {
                        (middle.push(para@), None)
                    },
                }
            });
            if !final_para {
                if para.is_empty() {
                } else if para.get_char(0) == ':' {
                    final_para = true;
                    final_para_string.append(para);
                } else {
                    let ghost prev = string_views(obj_parameters@);
                    obj_parameters.push(para.to_owned());
                    assert(string_views(obj_parameters@) =~= prev.push(para@));
                }
            } else {
                final_para_string.append(" ");
                final_para_string.append(para);
            }
            j = j + 1;
        }
        assert(pieces.take(j - drain_split) == pieces);
        obj_parameters.push(final_para_string);
        assert(string_views(obj_parameters@) =~= message_parameters(pieces));
        let obj_prefix = if colon {
            parts[0].clone()
        } else {
            sender.to_string()
        };
        let obj_command = if colon {
            parts[1].clone()
        } else {
            parts[0].clone()
        };
        Ok(Message { prefix: obj_prefix, command: obj_command, parameters: obj_parameters })
    }

    /// The message written out: prefix, command, then every parameter followed
    /// by a space, with single spaces between the parts.
    pub fn to_string(&self) -> (s: String)
        ensures
            s@ == display_message(self.model()),
    {
        let mut acc_string = String::new();
        let mut i: usize = 0;
        while i < self.parameters.len()
            invariant
                i <= self.parameters.len(),
                acc_string@ == join_params(string_views(self.parameters@).take(i as int)),
            decreases self.parameters.len() - i,
        {
            let ghost ps = string_views(self.parameters@);
            assert(ps.take(i + 1).drop_last() == ps.take(i as int));
            acc_string.append(self.parameters[i].as_str());
            acc_string.append(" ");
            i = i + 1;
        }
        assert(string_views(self.parameters@).take(i as int) == string_views(self.parameters@));
        let mut s = self.prefix.clone();
        s.append(" ");
        s.append(self.command.as_str());
        s.append(" ");
        s.append(acc_string.as_str());
        s
    }

    /// A copy of this message with the same content.
    pub fn duplicate(&self) -> (m: Message)
        ensures
            m.model() == self.model(),
    {
        let mut parameters: Vec<String> = Vec::new();
        let mut i: usize = 0;
        while i < self.parameters.len()
            invariant
                i <= self.parameters.len(),
                string_views(parameters@) == string_views(self.parameters@).take(i as int),
            decreases self.parameters.len() - i,
        {
            assert(string_views(self.parameters@).take(i + 1) =~= string_views(self.parameters@).take(
                i as int,
            ).push(self.parameters@[i as int]@));
            parameters.push(self.parameters[i].clone());
            assert(string_views(parameters@) =~= string_views(self.parameters@).take(i + 1));
            i = i + 1;
        }
        assert(string_views(self.parameters@).take(i as int) =~= string_views(self.parameters@));
        Message { prefix: self.prefix.clone(), command: self.command.clone(), parameters }
    }
}

} // verus!

verus! {

/// A single parameter is written in full, followed by one space.
pub proof fn lemma_join_params_single(p: Seq<char>)
    ensures
        join_params(seq![p]) == p + " "@,
{
    assert(seq![p].drop_last() =~= Seq::<Seq<char>>::empty());
    assert(join_params(Seq::<Seq<char>>::empty()) == Seq::<char>::empty());
    assert(seq![p].last() == p);
    assert(Seq::<char>::empty() + p + " "@ =~= p + " "@);
}

/// Writing out two lists of parameters one after the other is writing out
/// the joined list: every parameter keeps its place and its whole text.
pub proof fn lemma_join_params_concat(a: Seq<Seq<char>>, b: Seq<Seq<char>>)
    ensures
        join_params(a + b) == join_params(a) + join_params(b),
    decreases b.len(),
{
    if b.len() == 0 {
        assert(a + b =~= a);
        assert(join_params(a) + join_params(b) =~= join_params(a));
    } else {
        let bi = b.drop_last();
        lemma_join_params_concat(a, bi);
        assert((a + b).drop_last() =~= a + bi);
        assert((a + b).last() == b.last());
        assert(join_params(a) + join_params(b) =~= join_params(a) + join_params(bi) + b.last()
            + " "@);
    }
}

/// The written-out parameters are as long as all parameters together, plus
/// one space for each.
pub proof fn lemma_join_params_len(ps: Seq<Seq<char>>)
    ensures
        join_params(ps).len() == ps.len() + total_len(ps),
    decreases ps.len(),
{
    reveal_strlit(" ");
    if ps.len() > 0 {
        lemma_join_params_len(ps.drop_last());
    }
}

/// The sum of the lengths of the parameters.
pub open spec fn total_len(ps: Seq<Seq<char>>) -> int
    decreases ps.len(),
{
    if ps.len() == 0 {
        0
    } else {
        total_len(ps.drop_last()) + ps.last().len()
    }
}

} // verus!
