//! The bot: its modules, its user directory, the registration it opens a
//! connection with, and the step that routes one message to every module.

use vstd::prelude::*;
use vstd::string::*;
use crate::message::{
    is_chat, is_own_state, rendered, same_text, Message, Request, Response, Rgb,
};
use crate::user::{created, User, UserStore};
use crate::worker::{calls_for, gather, handle_message, lemma_present_len, Module};

verus! {

/// The user that a message identifies: the sender of chat that carries all
/// three identity tags, or the bot itself where the service states the
/// bot's identity. The bot's record gets the default colour.
pub open spec fn identity(msg: Message) -> Option<User> {
    if is_chat(msg.command@) {
        if msg.tags.display.is_some() && msg.tags.color.is_some() && msg.tags.userid.is_some() {
            Some(
                User {
                    userid: msg.tags.userid.unwrap(),
                    display: msg.tags.display.unwrap(),
                    color: msg.tags.color.unwrap(),
                },
            )
        } else {
            None
        }
    } else if is_own_state(msg.command@) {
        if msg.tags.display.is_some() && msg.tags.userid.is_some() {
            Some(
                User {
                    userid: msg.tags.userid.unwrap(),
                    display: msg.tags.display.unwrap(),
                    color: (Rgb { r: 0xfc, g: 0x0f, b: 0xc0 }),
                },
            )
        } else {
            None
        }
    } else {
        None
    }
}

/// The directory after a message has been seen: the user that the message
/// identifies is created in it.
pub open spec fn seen(users: Seq<User>, msg: Message) -> Seq<User> {
    match identity(msg) {
        Some(u) => created(users, u),
        None => users,
    }
}

/// Whether a message gives rise to a request: it is chat from a user whose
/// identity is known, and its text invokes a command.
pub open spec fn makes_request(msg: Message) -> bool {
    is_chat(msg.command@) && identity(msg).is_some() && msg.nick.is_some() && Request::parses(
        msg.data@,
    )
}

/// The lines that open a connection: three capability requests, the
/// password, the nickname.
pub open spec fn registration(token: Seq<char>, nick: Seq<char>) -> Seq<Seq<char>> {
    seq![
        "CAP REQ :twitch.tv/tags"@,
        "CAP REQ :twitch.tv/membership"@,
        "CAP REQ :twitch.tv/commands"@,
        "PASS "@ + token,
        "NICK "@ + nick,
    ]
}

/// The texts of a list of strings.
pub open spec fn texts(lines: Seq<String>) -> Seq<Seq<char>> {
    Seq::new(lines.len(), |i: int| lines[i]@)
}

/// The lines of one response as they are sent in answer to `msg`.
pub open spec fn lines_of(msg: Message, resp: Response) -> Seq<Seq<char>> {
    Seq::new(resp.lines@.len(), |i: int| rendered(resp.destination(&msg), resp.lines@[i]@))
}

/// The lines of all the responses, response after response.
pub open spec fn rendered_all(msg: Message, replies: Seq<Response>) -> Seq<Seq<char>>
    decreases replies.len(),
{
    if replies.len() == 0 {
        Seq::empty()
    } else {
        rendered_all(msg, replies.drop_last()) + lines_of(msg, replies.last())
    }
}

/// The user that a message identifies.
pub fn identify(msg: &Message) -> (r: Option<User>)
    ensures
        r == identity(*msg),
{
    if msg.is_command_class() {
        match (&msg.tags.display, msg.tags.color, msg.tags.userid) {
            (Some(d), Some(c), Some(id)) => Some(User { userid: id, display: d.clone(), color: c }),
            _ => None,
        }
    } else if same_text(msg.command.as_str(), "GLOBALUSERSTATE") {
        match (&msg.tags.display, msg.tags.userid) {
            (Some(d), Some(id)) => Some(
                User { userid: id, display: d.clone(), color: Rgb::bot_default() },
            ),
            _ => None,
        }
    } else {
        None
    }
}

/// The lines of all the responses as they are sent in answer to `msg`, in
/// the order of the responses.
pub fn render_all(msg: &Message, replies: &Vec<Response>) -> (out: Vec<String>)
    ensures
        texts(out@) == rendered_all(*msg, replies@),
{
    let mut out: Vec<String> = Vec::new();
    let mut i: usize = 0;
    proof {
        assert(texts(out@) =~= rendered_all(*msg, replies@.take(0)));
    }
    while i < replies.len()
        invariant
            i <= replies@.len(),
            texts(out@) == rendered_all(*msg, replies@.take(i as int)),
        decreases replies@.len() - i,
    {
        let mut built = replies[i].build(msg);
        proof {
            let next = replies@.take(i as int + 1);
            assert(next.drop_last() =~= replies@.take(i as int));
            assert(next.last() == replies@[i as int]);
            assert(texts(built@) =~= lines_of(*msg, replies@[i as int]));
            assert(texts(out@ + built@) =~= texts(out@) + texts(built@));
        }
        out.append(&mut built);
        i += 1;
    }
    proof {
        assert(replies@.take(i as int) =~= replies@);
    }
    out
}

/// What one step gives: the responses of the modules, in the order in which
/// they were given, and the lines to send for them.
#[derive(Debug, Clone, PartialEq, Eq)]
pub struct Step {
    pub replies: Vec<Response>,
    pub lines: Vec<String>,
}

/// The bot: a list of modules and the directory of the users it has seen.
pub struct Bot<M> {
    modules: Vec<M>,
    users: UserStore,
}

impl<M: Module> Bot<M> {
    /// The modules of the bot, in the order in which they are asked.
    pub closed spec fn modules(&self) -> Seq<M> {
        self.modules@
    }

    /// The records of the bot's user directory.
    pub closed spec fn directory(&self) -> Seq<User> {
        self.users@
    }

    /// A bot without modules that knows the users of `users`.
    pub fn new(users: UserStore) -> (r: Bot<M>)
        ensures
            r.modules().len() == 0,
            r.directory() == users@,
    {
        Bot { modules: Vec::new(), users }
    }

    /// Adds a module behind those that are there.
    pub fn add(&mut self, m: M)
        ensures
            final(self).modules() == old(self).modules().push(m),
            final(self).directory() == old(self).directory(),
    {
        self.modules.push(m);
    }

    /// The user directory.
    pub fn users(&self) -> (r: &UserStore)
        ensures
            r@ == self.directory(),
    {
        &self.users
    }

    /// The lines that register the bot on a new connection, in the order in
    /// which they are sent.
    pub fn register(token: &str, nick: &str) -> (out: Vec<String>)
        ensures
            texts(out@) == registration(token@, nick@),
    {
        let mut out: Vec<String> = Vec::new();
        out.push(String::from_str("CAP REQ :twitch.tv/tags"));
        out.push(String::from_str("CAP REQ :twitch.tv/membership"));
        out.push(String::from_str("CAP REQ :twitch.tv/commands"));
        out.push(String::from_str("PASS ").concat(token));
        out.push(String::from_str("NICK ").concat(nick));
        proof {
            assert(texts(out@) =~= registration(token@, nick@));
        }
        out
    }

    /// Records the user that the message identifies, and returns their id.
    pub fn add_user_from_msg(&mut self, msg: &Message) -> (r: Option<i64>)
        ensures
            final(self).directory() == seen(old(self).directory(), *msg),
            final(self).modules() == old(self).modules(),
            r.is_some() == identity(*msg).is_some(),
            r matches Some(id) ==> id == identity(*msg).unwrap().userid,
    {
        match identify(msg) {
            Some(u) => {
                self.users.create_user(&u);
                Some(u.userid)
            },
            None => None,
        }
    }

    /// Records the sender and derives the request that the message makes,
    /// if it makes one.
    pub fn try_make_request(&mut self, msg: &Message) -> (r: Option<Request>)
        ensures
            final(self).directory() == seen(old(self).directory(), *msg),
            final(self).modules() == old(self).modules(),
            r.is_some() == makes_request(*msg),
            r matches Some(q) ==> q.sender == identity(*msg).unwrap().userid && q.text@
                == msg.data@.subrange(1, msg.data@.len() as int),
    {
        let id = self.add_user_from_msg(msg);
        if !msg.is_command_class() {
            return None;
        }
        match (id, &msg.nick) {
            (Some(id), Some(_)) => Request::try_parse(id, msg.data.as_str()),
            _ => None,
        }
    }

    /// One turn of the main loop on what was read from the transport. With
    /// nothing read the loop is over. Else the sender is recorded, every
    /// module is handed the message in the order of the list, and the
    /// responses are rendered in the order in which they were given.
    pub fn step(&mut self, input: Option<&Message>) -> (r: Option<Step>)
        ensures
            r.is_some() == input.is_some(),
            final(self).modules().len() == old(self).modules().len(),
            input.is_none() ==> final(self).directory() == old(self).directory(),
            input matches Some(msg) ==> {
                &&& final(self).directory() == seen(old(self).directory(), *msg)
                &&& r matches Some(s) && texts(s.lines@) == rendered_all(*msg, s.replies@)
                    && s.replies@.len() <= old(self).modules().len() * calls_for(
                    msg.command@,
                    makes_request(*msg),
                )
            },
    {
        let msg: &Message = match input {
            Some(m) => m,
            None => {
                return None;
            },
        };
        let req = self.try_make_request(msg);
        let ghost calls = calls_for(msg.command@, makes_request(*msg));
        let ghost count = self.modules@.len();
        let mut results: Vec<Option<Response>> = Vec::new();
        let mut i: usize = 0;
        while i < self.modules.len()
            invariant
                i <= self.modules@.len(),
                self.modules@.len() == count,
                self.users@ == seen(old(self).directory(), *msg),
                req.is_some() == makes_request(*msg),
                calls == calls_for(msg.command@, makes_request(*msg)),
                results@.len() == i * calls,
            decreases self.modules@.len() - i,
        {
            let mut given = handle_message(&mut self.modules[i], msg, req.as_ref());
            proof {
                assert((i + 1) * calls == i * calls + calls) by (nonlinear_arith);
            }
            results.append(&mut given);
            i += 1;
        }
        proof {
            lemma_present_len(results@);
        }
        let replies = gather(results);
        let lines = render_all(msg, &replies);
        Some(Step { replies, lines })
    }
}

} // verus!
