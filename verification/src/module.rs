//! The command map of a module: its handlers by name, registered in the
//! registry when the map is made, and resolved by longest match.

use vstd::prelude::*;
use crate::command::{Command, Registry};
use crate::message::Request;
use crate::table::{table_entries, table_insert, table_new, table_pairs, NameTable};
use crate::text::{is_prefix, remainder, token_match};

verus! {

/// What can go wrong when a module is set up.
#[derive(Debug, Clone, Copy, PartialEq, Eq)]
pub enum Error {
    /// A command name of the module is already registered.
    CommandAlreadyExists,
    /// The module could not be started.
    CannotStart,
}

/// The name at `i` cannot be registered after those before it: the registry
/// `taken` holds it already, or an earlier name of the batch is the same.
pub open spec fn clashes(taken: Set<Seq<char>>, names: Seq<Seq<char>>, i: int) -> bool {
    taken.contains(names[i]) || exists|j: int| 0 <= j < i && #[trigger] names[j] == names[i]
}

/// The registry `before` with each of `names` added under `namespace`.
pub open spec fn with_names(
    before: Map<Seq<char>, Seq<char>>,
    namespace: Seq<char>,
    names: Seq<Seq<char>>,
) -> Map<Seq<char>, Seq<char>> {
    Map::new(
        |n: Seq<char>| before.dom().contains(n) || names.contains(n),
        |n: Seq<char>|
            if before.dom().contains(n) {
                before[n]
            } else {
                namespace
            },
    )
}

/// The names of a batch of commands, in order.
pub open spec fn batch_names<F>(commands: Seq<(&str, F)>) -> Seq<Seq<char>> {
    Seq::new(commands.len(), |i: int| commands[i].0@)
}

/// `n` is a name of `names` that matches `text`, and no longer one does.
pub open spec fn is_longest(names: Set<Seq<char>>, text: Seq<char>, n: Seq<char>) -> bool {
    &&& names.contains(n)
    &&& token_match(n, text)
    &&& forall|m: Seq<char>| names.contains(m) && token_match(m, text) ==> m.len() <= n.len()
}

/// The name that answers `text`: the longest of `names` that heads it as a
/// whole token, if any does.
pub open spec fn longest_match(names: Set<Seq<char>>, text: Seq<char>) -> Option<Seq<char>> {
    if exists|n: Seq<char>| is_longest(names, text, n) {
        Some(choose|n: Seq<char>| is_longest(names, text, n))
    } else {
        None
    }
}

/// Two prefixes of one text that are equally long are the same.
pub proof fn lemma_prefix_same_len(a: Seq<char>, b: Seq<char>, text: Seq<char>)
    requires
        is_prefix(a, text),
        is_prefix(b, text),
        a.len() == b.len(),
    ensures
        a == b,
{
    assert(a == text.subrange(0, a.len() as int));
    assert(b == text.subrange(0, b.len() as int));
}

/// At most one name is the longest match, so the longest match is that name.
pub proof fn lemma_longest_unique(names: Set<Seq<char>>, text: Seq<char>, n: Seq<char>)
    requires
        is_longest(names, text, n),
    ensures
        longest_match(names, text) == Some(n),
{
    let c = choose|c: Seq<char>| is_longest(names, text, c);
    assert(c.len() <= n.len());
    assert(n.len() <= c.len());
    lemma_prefix_same_len(c, n, text);
}

/// The longest match is one of the names, heads the text as a whole token,
/// and wins over every shorter name that does so too: where `long` matches,
/// no shorter name answers.
pub proof fn lemma_longer_wins(
    names: Set<Seq<char>>,
    text: Seq<char>,
    short: Seq<char>,
    long: Seq<char>,
)
    requires
        names.contains(long),
        token_match(long, text),
        short.len() < long.len(),
    ensures
        longest_match(names, text) != Some(short),
        longest_match(names, text) matches Some(n) ==> names.contains(n) && token_match(n, text)
            && long.len() <= n.len(),
{
    if longest_match(names, text).is_some() {
        let c = choose|c: Seq<char>| is_longest(names, text, c);
        assert(is_longest(names, text, c));
        assert(long.len() <= c.len());
    }
}

/// Where no name matches, there is no longest match.
pub proof fn lemma_no_match(names: Set<Seq<char>>, text: Seq<char>)
    requires
        forall|m: Seq<char>| names.contains(m) ==> !token_match(m, text),
    ensures
        longest_match(names, text).is_none(),
{
}

/// A name is among the first `i + 1` of `names` where it is among the first
/// `i`, or is the one at `i`.
pub proof fn lemma_take_next(names: Seq<Seq<char>>, i: int, n: Seq<char>)
    requires
        0 <= i < names.len(),
    ensures
        names.take(i + 1).contains(n) == (names.take(i).contains(n) || names[i] == n),
{
    let next = names.take(i + 1);
    assert(next[i] == names[i]);
    if names.take(i).contains(n) {
        let j = choose|j: int| 0 <= j < i && names.take(i)[j] == n;
        assert(next[j] == n);
    }
    if next.contains(n) {
        let j = choose|j: int| 0 <= j < next.len() && next[j] == n;
        if j < i {
            assert(names.take(i)[j] == n);
        }
    }
}

/// The handlers of one module by command name.
pub struct CommandMap<F> {
    table: NameTable,
    handlers: Vec<F>,
}

impl<F> CommandMap<F> {
    /// Every name of the table leads to a handler.
    #[verifier::type_invariant]
    spec fn slots_in_range(self) -> bool {
        forall|n: Seq<char>| #[trigger]
            table_entries(self.table).dom().contains(n) ==> table_entries(self.table)[n]
                < self.handlers@.len()
    }
}

impl<F: Copy> View for CommandMap<F> {
    type V = Map<Seq<char>, F>;

    /// For each command name of the module, its handler.
    closed spec fn view(&self) -> Map<Seq<char>, F> {
        Map::new(
            |n: Seq<char>| table_entries(self.table).dom().contains(n),
            |n: Seq<char>| self.handlers@[table_entries(self.table)[n] as int],
        )
    }
}

impl<F: Copy> CommandMap<F> {
    /// Registers each command under `namespace`, in order, and maps its name
    /// to its handler. The first name that is taken ends the construction
    /// with an error; the names registered before it stay registered.
    pub fn create(registry: &mut Registry, namespace: &str, commands: &[(&str, F)]) -> (r: Result<
        CommandMap<F>,
        Error,
    >)
        ensures
            old(registry)@.submap_of(final(registry)@),
            r.is_err() == exists|i: int|
                0 <= i < commands@.len() && clashes(
                    old(registry)@.dom(),
                    batch_names(commands@),
                    i,
                ),
            r matches Err(e) ==> e == Error::CommandAlreadyExists && exists|k: int|
                {
                    &&& 0 <= k < commands@.len()
                    &&& clashes(old(registry)@.dom(), batch_names(commands@), k)
                    &&& forall|i: int|
                        0 <= i < k ==> !clashes(old(registry)@.dom(), batch_names(commands@), i)
                    &&& final(registry)@ == with_names(
                        old(registry)@,
                        namespace@,
                        #[trigger] batch_names(commands@).take(k),
                    )
                },
            r matches Ok(m) ==> {
                &&& m.spec_len() == commands@.len()
                &&& final(registry)@ == with_names(
                    old(registry)@,
                    namespace@,
                    batch_names(commands@),
                )
                &&& m@.dom() == batch_names(commands@).to_set()
                &&& forall|n: Seq<char>| #[trigger]
                    m@.dom().contains(n) ==> final(registry)@.contains_pair(n, namespace@)
                &&& forall|i: int|
                    0 <= i < commands@.len() ==> m@[#[trigger] batch_names(commands@)[i]]
                        == commands@[i].1
            },
    {
        let ghost names = batch_names(commands@);
        let ghost taken = registry@.dom();
        let ghost before = registry@;
        let mut table = table_new();
        let mut handlers: Vec<F> = Vec::new();
        let mut i: usize = 0;
        proof {
            assert(registry@ =~= with_names(before, namespace@, names.take(0)));
        }
        while i < commands.len()
            invariant
                i <= commands@.len(),
                names == batch_names(commands@),
                taken == before.dom(),
                before == old(registry)@,
                registry@ == with_names(before, namespace@, names.take(i as int)),
                forall|k: int| 0 <= k < i ==> !clashes(taken, names, k),
                handlers@.len() == i,
                forall|k: int| 0 <= k < i ==> #[trigger] handlers@[k] == commands@[k].1,
                table_entries(table).dom() == names.take(i as int).to_set(),
                forall|k: int|
                    0 <= k < i ==> table_entries(table)[#[trigger] names[k]] == k,
            decreases commands@.len() - i,
        {
            let name: &str = commands[i].0;
            let handler: F = commands[i].1;
            let cmd = Command::new(name, namespace);
            let ghost reg_before = registry@;
            assert(names[i as int] == name@);
            proof {
                // the name is in the registry exactly where it clashes
                if reg_before.dom().contains(name@) {
                    if !taken.contains(name@) {
                        assert(names.take(i as int).contains(name@));
                        let j = choose|j: int|
                            0 <= j < i && names.take(i as int)[j] == name@;
                        assert(names[j] == names[i as int]);
                    }
                    assert(clashes(taken, names, i as int));
                } else {
                    if exists|j: int| 0 <= j < i && #[trigger] names[j] == names[i as int] {
                        let j = choose|j: int| 0 <= j < i && #[trigger] names[j] == names[i as int];
                        assert(names.take(i as int)[j] == name@);
                        assert(names.take(i as int).contains(name@));
                    }
                    assert(!clashes(taken, names, i as int));
                }
            }
            match registry.register(&cmd) {
                Err(_) => {
                    proof {
                        let k = i as int;
                        assert(0 <= k < commands@.len());
                        assert(clashes(before.dom(), batch_names(commands@), k));
                        assert(registry@ == with_names(
                            before,
                            namespace@,
                            batch_names(commands@).take(k),
                        ));
                    }
                    return Err(Error::CommandAlreadyExists);
                },
                Ok(_) => {},
            }
            table_insert(&mut table, name, i);
            handlers.push(handler);
            proof {
                let next = names.take(i as int + 1);
                assert forall|n: Seq<char>| next.contains(n) == (names.take(i as int).contains(n)
                    || n == name@) by {
                    lemma_take_next(names, i as int, n);
                }
                assert(registry@ =~= with_names(before, namespace@, next));
                assert(table_entries(table).dom() =~= next.to_set());
                assert forall|k: int| 0 <= k < i + 1 implies table_entries(table)[
                #[trigger] names[k]] == k by {
                    if k < i {
                        assert(!clashes(taken, names, i as int));
                        assert(names[k] != names[i as int]);
                    }
                }
            }
            i += 1;
        }
        proof {
            assert(names.take(i as int) =~= names);
            assert forall|n: Seq<char>| #[trigger]
                table_entries(table).dom().contains(n) implies table_entries(table)[n]
                < handlers@.len() by {
                let j = choose|j: int| 0 <= j < names.len() && names[j] == n;
                assert(table_entries(table)[names[j]] == j);
            }
        }
        let m = CommandMap { table, handlers };
        proof {
            assert(m@.dom() =~= names.to_set());
            assert forall|k: int| 0 <= k < commands@.len() implies m@[#[trigger] names[k]]
                == commands@[k].1 by {
                assert(names.to_set().contains(names[k]));
                assert(table_entries(m.table)[names[k]] == k);
            }
            assert forall|n: Seq<char>| #[trigger] m@.dom().contains(n) implies registry@.contains_pair(
                n,
                namespace@,
            ) by {
                let j = choose|j: int| 0 <= j < names.len() && names[j] == n;
                assert(!clashes(taken, names, j));
                assert(names.contains(n));
            }
        }
        Ok(m)
    }

    /// The handler that answers the request, with the request as that handler
    /// sees it: the command name taken off, the arguments left. Of the names
    /// that head the text as a whole token the longest answers.
    pub fn dispatch(&self, req: &Request) -> (r: Option<(F, Request)>)
        ensures
            r.is_some() == exists|n: Seq<char>|
                self@.dom().contains(n) && #[trigger] token_match(n, req.text@),
            match longest_match(self@.dom(), req.text@) {
                None => r.is_none(),
                Some(n) => r matches Some((f, q)) && f == self@[n] && q.sender == req.sender
                    && q.text@ == remainder(n, req.text@),
            },
    {
        proof {
            use_type_invariant(self);
        }
        let pairs = table_pairs(&self.table);
        let ghost text = req.text@;
        let ghost names = self@.dom();
        let mut best: Option<(usize, usize)> = None;
        let mut i: usize = 0;
        while i < pairs.len()
            invariant
                i <= pairs@.len(),
                text == req.text@,
                best.is_none() ==> forall|k: int|
                    0 <= k < i ==> !token_match((#[trigger] pairs@[k]).0@, text),
                best matches Some((b, len)) ==> {
                    &&& b < i
                    &&& len == pairs@[b as int].0@.len()
                    &&& token_match(pairs@[b as int].0@, text)
                    &&& forall|k: int|
                        0 <= k < i && token_match((#[trigger] pairs@[k]).0@, text)
                            ==> pairs@[k].0@.len() <= len
                },
            decreases pairs@.len() - i,
        {
            let name: &str = pairs[i].0.as_str();
            if crate::text::matches_token(name, req.text.as_str()) {
                let len: usize = name.unicode_len();
                match best {
                    Some((_, seen)) => {
                        if seen < len {
                            best = Some((i, len));
                        }
                    },
                    None => {
                        best = Some((i, len));
                    },
                }
            }
            i += 1;
        }
        match best {
            None => {
                proof {
                    assert forall|m: Seq<char>| names.contains(m) implies !token_match(
                        m,
                        text,
                    ) by {
                        let k = choose|k: int|
                            0 <= k < pairs@.len() && (#[trigger] pairs@[k]).0@ == m;
                        assert(!token_match(pairs@[k].0@, text));
                    }
                    lemma_no_match(names, text);
                }
                None
            },
            Some((b, _)) => {
                let name: &str = pairs[b].0.as_str();
                let slot: usize = pairs[b].1;
                proof {
                    let n = pairs@[b as int].0@;
                    assert(table_entries(self.table).contains_pair(n, slot));
                    assert(table_entries(self.table).dom().contains(n));
                    assert forall|m: Seq<char>|
                        names.contains(m) && token_match(m, text) implies m.len()
                        <= n.len() by {
                        let k = choose|k: int|
                            0 <= k < pairs@.len() && (#[trigger] pairs@[k]).0@ == m;
                        assert(token_match(pairs@[k].0@, text));
                    }
                    assert(is_longest(names, text, n));
                    lemma_longest_unique(names, text, n);
                    assert(names.contains(n) && token_match(n, req.text@));
                }
                match req.search(name) {
                    Some(q) => Some((self.handlers[slot], q)),
                    None => None,
                }
            },
        }
    }

    /// How many commands the map holds a handler slot for.
    pub fn len(&self) -> (r: usize)
        ensures
            r == self.spec_len(),
    {
        self.handlers.len()
    }

    pub closed spec fn spec_len(&self) -> nat {
        self.handlers@.len()
    }
}

} // verus!
