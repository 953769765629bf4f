//! The values that flow through the bot: inbound messages, requests derived
//! from them, and the responses that handlers give.

use vstd::prelude::*;
use vstd::string::*;
use crate::text::{after_token, has_prefix, is_prefix, matches_token, remainder, token_match};

verus! {

/// A colour as three channels.
#[derive(Debug, Clone, Copy, PartialEq, Eq, Structural)]
pub struct Rgb {
    pub r: u8,
    pub g: u8,
    pub b: u8,
}

/// The value of a hexadecimal digit.
pub open spec fn hex_value(c: char) -> Option<int> {
    if '0' <= c <= '9' {
        Some(c as int - 48)
    } else if 'a' <= c <= 'f' {
        Some(c as int - 87)
    } else if 'A' <= c <= 'F' {
        Some(c as int - 55)
    } else {
        None
    }
}

/// The six digits of a colour text: what follows its `#`, or the whole text
/// where it has none.
pub open spec fn hex_digits(s: Seq<char>) -> Seq<char> {
    if s.len() > 0 && s[0] == '#' {
        s.subrange(1, s.len() as int)
    } else {
        s
    }
}

/// The colour that a text such as `#f0f0f0` or `f0f0f0` names.
pub open spec fn parsed_rgb(s: Seq<char>) -> Option<Rgb> {
    let d = hex_digits(s);
    if d.len() == 6 && (forall|i: int| 0 <= i < 6 ==> hex_value(#[trigger] d[i]).is_some()) {
        Some(
            Rgb {
                r: (16 * hex_value(d[0]).unwrap() + hex_value(d[1]).unwrap()) as u8,
                g: (16 * hex_value(d[2]).unwrap() + hex_value(d[3]).unwrap()) as u8,
                b: (16 * hex_value(d[4]).unwrap() + hex_value(d[5]).unwrap()) as u8,
            },
        )
    } else {
        None
    }
}

pub fn hex_digit(c: char) -> (r: Option<u8>)
    ensures
        r.is_some() == hex_value(c).is_some(),
        r matches Some(v) ==> v == hex_value(c).unwrap() && v < 16,
{
    let v: u32 = c as u32;
    if '0' <= c && c <= '9' {
        Some((v - 48) as u8)
    } else if 'a' <= c && c <= 'f' {
        Some((v - 87) as u8)
    } else if 'A' <= c && c <= 'F' {
        Some((v - 55) as u8)
    } else {
        None
    }
}

impl Rgb {
    /// Reads a colour from six hexadecimal digits, with or without a `#`
    /// before them.
    pub fn parse(s: &str) -> (r: Option<Rgb>)
        ensures
            r == parsed_rgb(s@),
    {
        let n: usize = s.unicode_len();
        let start: usize = if n > 0 && s.get_char(0) == '#' {
            1
        } else {
            0
        };
        if n - start != 6 {
            return None;
        }
        let ghost d = hex_digits(s@);
        assert(d =~= s@.subrange(start as int, n as int));
        let mut channels: [u8; 3] = [0, 0, 0];
        let mut i: usize = 0;
        while i < 3
            invariant
                i <= 3,
                n == s@.len(),
                n - start == 6,
                d == s@.subrange(start as int, n as int),
                forall|k: int| 0 <= k < 2 * i ==> hex_value(#[trigger] d[k]).is_some(),
                forall|k: int|
                    0 <= k < i ==> #[trigger] channels[k] == (16 * hex_value(d[2 * k]).unwrap()
                        + hex_value(d[2 * k + 1]).unwrap()) as u8,
            decreases 3 - i,
        {
            let hi = hex_digit(s.get_char(start + 2 * i));
            let lo = hex_digit(s.get_char(start + 2 * i + 1));
            assert(d[2 * i as int] == s@[start + 2 * i as int]);
            assert(d[2 * i as int + 1] == s@[start + 2 * i as int + 1]);
            match (hi, lo) {
                (Some(h), Some(l)) => {
                    channels[i] = 16 * h + l;
                },
                _ => {
                    return None;
                },
            }
            i += 1;
        }
        Some(Rgb { r: channels[0], g: channels[1], b: channels[2] })
    }

    pub fn new(r: u8, g: u8, b: u8) -> (c: Rgb)
        ensures
            c == (Rgb { r, g, b }),
    {
        Rgb { r, g, b }
    }

    /// The colour given to the bot's own user record: `#fc0fc0`.
    pub fn bot_default() -> (c: Rgb)
        ensures
            c == (Rgb { r: 0xfc, g: 0x0f, b: 0xc0 }),
    {
        Rgb { r: 0xfc, g: 0x0f, b: 0xc0 }
    }
}

/// The identity tags that a message may carry.
#[derive(Debug, Clone, PartialEq, Eq)]
pub struct Tags {
    pub display: Option<String>,
    pub color: Option<Rgb>,
    pub userid: Option<i64>,
}

/// One inbound protocol message, already parsed.
#[derive(Debug, Clone, PartialEq, Eq)]
pub struct Message {
    /// The protocol command, such as `PRIVMSG`.
    pub command: String,
    /// Where the message was sent: a channel, or the bot itself.
    pub target: String,
    /// The nickname of the sender, where the message came from a user.
    pub nick: Option<String>,
    /// The text of the message.
    pub data: String,
    pub tags: Tags,
}

/// The two commands that carry chat: only these reach `command` and `passive`.
pub open spec fn is_chat(command: Seq<char>) -> bool {
    command == "PRIVMSG"@ || command == "WHISPER"@
}

pub open spec fn is_whisper(command: Seq<char>) -> bool {
    command == "WHISPER"@
}

/// The bot's own identity event.
pub open spec fn is_own_state(command: Seq<char>) -> bool {
    command == "GLOBALUSERSTATE"@
}

pub fn copy_text(s: &Option<String>) -> (r: Option<String>)
    ensures
        r == *s,
{
    match s {
        Some(t) => Some(t.clone()),
        None => None,
    }
}

impl Message {
    /// Whether this is a chat message or a whisper.
    pub fn is_command_class(&self) -> (r: bool)
        ensures
            r == is_chat(self.command@),
    {
        same_text(self.command.as_str(), "PRIVMSG") || same_text(self.command.as_str(), "WHISPER")
    }

    /// Where a reply to this message goes: to the sender of a whisper, else
    /// to where the message itself was sent.
    pub open spec fn reply_target(&self) -> Seq<char> {
        if is_whisper(self.command@) && self.nick.is_some() {
            self.nick.unwrap()@
        } else {
            self.target@
        }
    }

    pub fn duplicate(&self) -> (r: Message)
        ensures
            r == *self,
    {
        Message {
            command: self.command.clone(),
            target: self.target.clone(),
            nick: copy_text(&self.nick),
            data: self.data.clone(),
            tags: Tags {
                display: copy_text(&self.tags.display),
                color: self.tags.color,
                userid: self.tags.userid,
            },
        }
    }
}

/// Whether `a` and `b` hold the same text.
pub fn same_text(a: &str, b: &str) -> (r: bool)
    ensures
        r == (a@ == b@),
{
    a.to_owned() == b.to_owned()
}

/// A command invocation: who sent it, and its text without the leading `!`.
#[derive(Debug, Clone, PartialEq, Eq)]
pub struct Request {
    pub sender: i64,
    pub text: String,
}

impl Request {
    /// The texts that invoke a command: a `!` and at least one more character.
    pub open spec fn parses(data: Seq<char>) -> bool {
        data.len() > 1 && data[0] == '!'
    }

    /// The request that `data` makes, if it makes one.
    pub fn try_parse(sender: i64, data: &str) -> (r: Option<Request>)
        ensures
            r.is_some() == Self::parses(data@),
            r matches Some(q) ==> q.sender == sender && q.text@ == data@.subrange(
                1,
                data@.len() as int,
            ),
    {
        let n: usize = data.unicode_len();
        if n > 1 && data.get_char(0) == '!' {
            Some(Request { sender, text: data.substring_char(1, n).to_owned() })
        } else {
            None
        }
    }

    /// This request read as an invocation of `name`: present where `name`
    /// heads the text as a whole token, and then holding what follows it.
    pub fn search(&self, name: &str) -> (r: Option<Request>)
        ensures
            r.is_some() == token_match(name@, self.text@),
            r matches Some(q) ==> q.sender == self.sender && q.text@ == remainder(
                name@,
                self.text@,
            ),
    {
        if matches_token(name, self.text.as_str()) {
            let n: usize = name.unicode_len();
            Some(Request { sender: self.sender, text: after_token(self.text.as_str(), n) })
        } else {
            None
        }
    }

    pub fn sender(&self) -> (r: i64)
        ensures
            r == self.sender,
    {
        self.sender
    }

    pub fn args(&self) -> (r: &str)
        ensures
            r@ == self.text@,
    {
        self.text.as_str()
    }
}

/// Where a response is to be delivered.
#[derive(Debug, Clone, PartialEq, Eq)]
pub enum Target {
    /// Back to where the originating message came from.
    Origin,
    /// To the named channel or user.
    Named(String),
}

/// What a handler answers: text lines and where they go.
#[derive(Debug, Clone, PartialEq, Eq)]
pub struct Response {
    pub target: Target,
    pub lines: Vec<String>,
}

/// One line of text as it is sent to `target`.
pub open spec fn rendered(target: Seq<char>, line: Seq<char>) -> Seq<char> {
    "PRIVMSG "@ + target + " :"@ + line
}

/// The place of the first blank of `s` at or after `from`, or the length of
/// `s` where there is none.
pub open spec fn first_blank(s: Seq<char>, from: int) -> int
    decreases s.len() - from,
{
    if from >= s.len() {
        s.len() as int
    } else if s[from] == ' ' {
        from
    } else {
        first_blank(s, from + 1)
    }
}

/// A sent line taken apart again: its target and its text. Lines that were
/// not made by [`rendered`] have none.
pub open spec fn unrendered(line: Seq<char>) -> Option<(Seq<char>, Seq<char>)> {
    let head = "PRIVMSG "@;
    if is_prefix(head, line) {
        let t = first_blank(line, head.len() as int);
        if t + 1 < line.len() && line[t + 1] == ':' {
            Some((line.subrange(head.len() as int, t), line.subrange(t + 2, line.len() as int)))
        } else {
            None
        }
    } else {
        None
    }
}

/// Where a blank stands at `stop` and none between `from` and `stop`, the
/// first blank from `from` on is at `stop`.
pub proof fn lemma_first_blank(s: Seq<char>, from: int, stop: int)
    requires
        0 <= from <= stop < s.len(),
        s[stop] == ' ',
        forall|i: int| from <= i < stop ==> s[i] != ' ',
    ensures
        first_blank(s, from) == stop,
    decreases stop - from,
{
    if from < stop {
        lemma_first_blank(s, from + 1, stop);
    }
}

/// A rendered line comes apart into the target and the text that it was
/// made of, as long as the target holds no blank.
pub proof fn lemma_render_round_trip(target: Seq<char>, text: Seq<char>)
    requires
        forall|i: int| 0 <= i < target.len() ==> target[i] != ' ',
    ensures
        unrendered(rendered(target, text)) == Some((target, text)),
{
    reveal_strlit(" :");
    let head = "PRIVMSG "@;
    let line = rendered(target, text);
    let h = head.len() as int;
    let stop = h + target.len();
    assert(line.len() == h + target.len() + 2 + text.len());
    assert(line.subrange(0, h) =~= head);
    assert(line[stop] == " :"@[0]);
    assert(line[stop + 1] == " :"@[1]);
    assert forall|i: int| h <= i < stop implies line[i] != ' ' by {
        assert(line[i] == target[i - h]);
    }
    lemma_first_blank(line, h, stop);
    assert(line.subrange(h, stop) =~= target);
    assert(line.subrange(stop + 2, line.len() as int) =~= text);
}

/// Takes a sent line apart into its target and its text.
pub fn unrender(line: &str) -> (r: Option<(String, String)>)
    ensures
        r.is_some() == unrendered(line@).is_some(),
        r matches Some((target, text)) ==> unrendered(line@) == Some((target@, text@)),
{
    let head = "PRIVMSG ";
    if !has_prefix(head, line) {
        return None;
    }
    let h: usize = head.unicode_len();
    let m: usize = line.unicode_len();
    let mut t: usize = h;
    while t < m && line.get_char(t) != ' '
        invariant
            h <= t <= m,
            m == line@.len(),
            first_blank(line@, h as int) == first_blank(line@, t as int),
        decreases m - t,
    {
        t += 1;
    }
    if t < m && m - t > 1 && line.get_char(t + 1) == ':' {
        Some((line.substring_char(h, t).to_owned(), line.substring_char(t + 2, m).to_owned()))
    } else {
        None
    }
}

impl Response {
    /// A single line back to the origin.
    pub fn reply(line: &str) -> (r: Response)
        ensures
            r.target == Target::Origin,
            r.lines@.len() == 1,
            r.lines@[0]@ == line@,
    {
        let mut lines: Vec<String> = Vec::new();
        lines.push(line.to_owned());
        Response { target: Target::Origin, lines }
    }

    /// Where this response goes when it answers `msg`.
    pub open spec fn destination(&self, msg: &Message) -> Seq<char> {
        match self.target {
            Target::Origin => msg.reply_target(),
            Target::Named(name) => name@,
        }
    }

    /// The lines of this response as they are sent in answer to `msg`: one
    /// per text line, in order, each bound to the response's destination.
    pub fn build(&self, msg: &Message) -> (out: Vec<String>)
        ensures
            out@.len() == self.lines@.len(),
            forall|i: int|
                0 <= i < out@.len() ==> (#[trigger] out@[i])@ == rendered(
                    self.destination(msg),
                    self.lines@[i]@,
                ),
    {
        let whisper = same_text(msg.command.as_str(), "WHISPER");
        let mut out: Vec<String> = Vec::new();
        let mut i: usize = 0;
        while i < self.lines.len()
            invariant
                i <= self.lines@.len(),
                out@.len() == i,
                whisper == is_whisper(msg.command@),
                forall|k: int|
                    0 <= k < i ==> (#[trigger] out@[k])@ == rendered(
                        self.destination(msg),
                        self.lines@[k]@,
                    ),
            decreases self.lines@.len() - i,
        {
            let mut s = String::from_str("PRIVMSG ");
            match &self.target {
                Target::Origin => {
                    match &msg.nick {
                        Some(nick) => {
                            if whisper {
                                s.append(nick.as_str());
                            } else {
                                s.append(msg.target.as_str());
                            }
                        },
                        None => {
                            s.append(msg.target.as_str());
                        },
                    }
                },
                Target::Named(name) => {
                    s.append(name.as_str());
                },
            }
            s.append(" :");
            s.append(self.lines[i].as_str());
            out.push(s);
            i += 1;
        }
        out
    }
}

} // verus!
