//! The capabilities of a module, and the loop that feeds a module the events
//! of its queue.

use vstd::prelude::*;
use crate::message::{is_chat, Message, Request, Response};

verus! {

/// A handler unit. Each capability may be overridden; one that is not gives
/// no response.
pub trait Module {
    /// Answers a command invocation.
    fn command(&mut self, req: &Request) -> (r: Option<Response>)
        default_ensures
            r.is_none(),
    {
        None
    }

    /// Looks at a chat message, whether or not it invokes a command.
    fn passive(&mut self, msg: &Message) -> (r: Option<Response>)
        default_ensures
            r.is_none(),
    {
        None
    }

    /// Handles a message that is not chat.
    fn event(&mut self, msg: &Message) -> (r: Option<Response>)
        default_ensures
            r.is_none(),
    {
        None
    }

    /// Periodic housekeeping at time `now`.
    fn tick(&mut self, now: u64) -> (r: Option<Response>)
        default_ensures
            r.is_none(),
    {
        None
    }

    /// Observes a response that this module gave to `msg`.
    fn inspect(&mut self, msg: &Message, resp: &Response) {
    }
}

/// What a module's queue delivers.
#[derive(Debug, Clone, PartialEq, Eq)]
pub enum Event {
    /// A message, with the request derived from it where there is one.
    Message(Message, Option<Request>),
    /// The time has come for housekeeping.
    Tick(u64),
    /// A response that the module gave earlier, with its message.
    Inspect(Message, Response),
}

/// A response on its way out, with the message that it answers. A response
/// to a tick answers no message.
#[derive(Debug, Clone, PartialEq, Eq)]
pub struct Outbound {
    pub origin: Option<Message>,
    pub response: Response,
}

/// The capabilities that answer messages.
#[derive(Debug, Clone, Copy, PartialEq, Eq, Structural)]
pub enum Capability {
    Command,
    Passive,
    Event,
}

/// The capabilities that a message reaches, in the order in which they are
/// asked: `command` and then `passive` for chat that makes a request,
/// `passive` alone for other chat, `event` for everything else.
pub open spec fn routed(command: Seq<char>, has_request: bool) -> Seq<Capability> {
    if is_chat(command) {
        if has_request {
            seq![Capability::Command, Capability::Passive]
        } else {
            seq![Capability::Passive]
        }
    } else {
        seq![Capability::Event]
    }
}

/// How many capabilities a message reaches.
pub open spec fn calls_for(command: Seq<char>, has_request: bool) -> nat {
    routed(command, has_request).len()
}

/// The responses that are present among `results`, in order.
pub open spec fn present(results: Seq<Option<Response>>) -> Seq<Response>
    decreases results.len(),
{
    if results.len() == 0 {
        Seq::empty()
    } else {
        match results.last() {
            Some(r) => present(results.drop_last()).push(r),
            None => present(results.drop_last()),
        }
    }
}

/// Each of `replies`, in order, as an answer to `origin`.
pub open spec fn paired(origin: Option<Message>, replies: Seq<Response>) -> Seq<Outbound> {
    Seq::new(replies.len(), |i: int| Outbound { origin, response: replies[i] })
}

/// What an event may put on the outbound queue: nothing for an inspection,
/// at most one response without origin for a tick, and for a message at most
/// one response per capability it reaches, each paired with that message.
pub open spec fn emitted_by(ev: Event, out: Seq<Outbound>) -> bool {
    match ev {
        Event::Message(msg, req) => {
            &&& out.len() <= calls_for(msg.command@, req.is_some())
            &&& forall|i: int| 0 <= i < out.len() ==> (#[trigger] out[i]).origin == Some(msg)
        },
        Event::Tick(_) => {
            &&& out.len() <= 1
            &&& forall|i: int| 0 <= i < out.len() ==> (#[trigger] out[i]).origin.is_none()
        },
        Event::Inspect(_, _) => out.len() == 0,
    }
}

/// No more responses are present than there are results.
pub proof fn lemma_present_len(results: Seq<Option<Response>>)
    ensures
        present(results).len() <= results.len(),
    decreases results.len(),
{
    if results.len() > 0 {
        lemma_present_len(results.drop_last());
    }
}

/// The responses that are present among `results`, in order.
pub fn gather(results: Vec<Option<Response>>) -> (out: Vec<Response>)
    ensures
        out@ == present(results@),
{
    let mut rest = results;
    let mut out: Vec<Response> = Vec::new();
    let ghost all = rest@;
    let ghost mut done: int = 0;
    while rest.len() > 0
        invariant
            0 <= done <= all.len(),
            rest@ == all.subrange(done, all.len() as int),
            out@ == present(all.take(done)),
        decreases rest@.len(),
    {
        let r = rest.remove(0);
        proof {
            assert(r == all[done]);
            assert(all.take(done + 1).drop_last() =~= all.take(done));
            assert(all.take(done + 1).last() == all[done]);
            assert(rest@ =~= all.subrange(done + 1, all.len() as int));
            done = done + 1;
        }
        match r {
            Some(x) => {
                out.push(x);
            },
            None => {},
        }
    }
    proof {
        assert(all.take(done) =~= all);
    }
    out
}

/// Each of `replies`, in order, as an answer to `origin`.
pub fn pair_with(origin: Option<&Message>, replies: Vec<Response>) -> (out: Vec<Outbound>)
    ensures
        out@ == paired(
            match origin {
                Some(m) => Some(*m),
                None => None,
            },
            replies@,
        ),
{
    let ghost from: Option<Message> = match origin {
        Some(m) => Some(*m),
        None => None,
    };
    let mut rest = replies;
    let mut out: Vec<Outbound> = Vec::new();
    let ghost all = rest@;
    while rest.len() > 0
        invariant
            out@.len() + rest@.len() == all.len(),
            rest@ == all.subrange(out@.len() as int, all.len() as int),
            out@ == paired(from, all.take(out@.len() as int)),
            from == (match origin {
                Some(m) => Some(*m),
                None => None,
            }),
        decreases rest@.len(),
    {
        let ghost n = out@.len() as int;
        let r = rest.remove(0);
        let o: Option<Message> = match origin {
            Some(m) => Some(m.duplicate()),
            None => None,
        };
        out.push(Outbound { origin: o, response: r });
        proof {
            assert(r == all[n]);
            assert(rest@ =~= all.subrange(n + 1, all.len() as int));
            assert(out@ =~= paired(from, all.take(n + 1)));
        }
    }
    proof {
        assert(all.take(out@.len() as int) =~= all);
    }
    out
}

/// The capabilities that a message reaches, in the order in which they are
/// asked.
pub fn route(msg: &Message, has_request: bool) -> (plan: Vec<Capability>)
    ensures
        plan@ == routed(msg.command@, has_request),
{
    let mut plan: Vec<Capability> = Vec::new();
    if msg.is_command_class() {
        if has_request {
            plan.push(Capability::Command);
        }
        plan.push(Capability::Passive);
    } else {
        plan.push(Capability::Event);
    }
    assert(plan@ =~= routed(msg.command@, has_request));
    plan
}

/// Hands a message to the capabilities that it reaches, in order, and
/// returns what each of them gave: one result per capability asked.
pub fn handle_message<M: Module>(m: &mut M, msg: &Message, req: Option<&Request>) -> (out: Vec<
    Option<Response>,
>)
    ensures
        out@.len() == calls_for(msg.command@, req.is_some()),
{
    let plan = route(msg, req.is_some());
    let mut out: Vec<Option<Response>> = Vec::new();
    let mut i: usize = 0;
    while i < plan.len()
        invariant
            i <= plan@.len(),
            out@.len() == i,
            plan@ == routed(msg.command@, req.is_some()),
        decreases plan@.len() - i,
    {
        let given = match (plan[i], req) {
            (Capability::Command, Some(q)) => m.command(q),
            (Capability::Command, None) => None,
            (Capability::Passive, _) => m.passive(msg),
            (Capability::Event, _) => m.event(msg),
        };
        out.push(given);
        i += 1;
    }
    out
}

/// One turn of a module's loop: hands the event to the module and returns
/// what goes on the outbound queue for it.
pub fn handle_event<M: Module>(m: &mut M, ev: Event) -> (out: Vec<Outbound>)
    ensures
        emitted_by(ev, out@),
{
    match ev {
        Event::Message(msg, req) => {
            let results = handle_message(m, &msg, req.as_ref());
            proof {
                lemma_present_len(results@);
            }
            let replies = gather(results);
            pair_with(Some(&msg), replies)
        },
        Event::Tick(now) => {
            let mut results: Vec<Option<Response>> = Vec::new();
            let t = m.tick(now);
            results.push(t);
            proof {
                lemma_present_len(results@);
            }
            let replies = gather(results);
            pair_with(None, replies)
        },
        Event::Inspect(msg, resp) => {
            m.inspect(&msg, &resp);
            Vec::new()
        },
    }
}

/// A module's loop over a whole queue: the events are handled one after
/// another in the order of their arrival. The result holds one batch per
/// event, in that order, so what an earlier event emits stands before what a
/// later one emits.
pub fn handle<M: Module>(m: &mut M, events: Vec<Event>) -> (out: Vec<Vec<Outbound>>)
    ensures
        out@.len() == events@.len(),
        forall|i: int| 0 <= i < out@.len() ==> emitted_by(events@[i], (#[trigger] out@[i])@),
{
    let mut rest = events;
    let mut out: Vec<Vec<Outbound>> = Vec::new();
    let ghost all = rest@;
    while rest.len() > 0
        invariant
            out@.len() + rest@.len() == all.len(),
            rest@ == all.subrange(out@.len() as int, all.len() as int),
            forall|i: int| 0 <= i < out@.len() ==> emitted_by(all[i], (#[trigger] out@[i])@),
        decreases rest@.len(),
    {
        let ghost n = out@.len() as int;
        let ev = rest.remove(0);
        assert(ev == all[n]);
        let batch = handle_event(m, ev);
        out.push(batch);
        proof {
            assert(rest@ =~= all.subrange(n + 1, all.len() as int));
        }
    }
    out
}

/// A module that overrides no capability.
#[derive(Debug, Clone, Copy, PartialEq, Eq)]
pub struct Idle;

impl Module for Idle {
}

/// Where every result is absent, no response is present.
pub proof fn lemma_present_none(results: Seq<Option<Response>>)
    requires
        forall|i: int| 0 <= i < results.len() ==> (#[trigger] results[i]).is_none(),
    ensures
        present(results).len() == 0,
    decreases results.len(),
{
    if results.len() > 0 {
        assert(results.last().is_none());
        assert forall|i: int| 0 <= i < results.drop_last().len() implies (
        #[trigger] results.drop_last()[i]).is_none() by {
            assert(results.drop_last()[i] == results[i]);
        }
        lemma_present_none(results.drop_last());
    }
}

impl Idle {
    /// One turn of the loop for a module that overrides nothing: every
    /// capability that the event reaches is asked, and nothing is emitted,
    /// whatever the event.
    pub fn feed(&mut self, ev: Event) -> (out: Vec<Outbound>)
        ensures
            out@.len() == 0,
    {
        let mut results: Vec<Option<Response>> = Vec::new();
        match ev {
            Event::Message(msg, req) => {
                if msg.is_command_class() {
                    match &req {
                        Some(q) => {
                            let r = self.command(q);
                            results.push(r);
                        },
                        None => {},
                    }
                    let p = self.passive(&msg);
                    results.push(p);
                } else {
                    let e = self.event(&msg);
                    results.push(e);
                }
                proof {
                    lemma_present_none(results@);
                }
                pair_with(Some(&msg), gather(results))
            },
            Event::Tick(now) => {
                let t = self.tick(now);
                results.push(t);
                proof {
                    lemma_present_none(results@);
                }
                pair_with(None, gather(results))
            },
            Event::Inspect(msg, resp) => {
                self.inspect(&msg, &resp);
                Vec::new()
            },
        }
    }
}

} // verus!
