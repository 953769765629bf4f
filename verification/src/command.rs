//! Commands and the registry that keeps their names unique.

use vstd::prelude::*;
use crate::message::same_text;

verus! {

/// A command: its bare name and the namespace of the module that owns it.
#[derive(Debug, Clone, PartialEq, Eq)]
pub struct Command {
    name: String,
    namespace: String,
}

impl Command {
    pub closed spec fn spec_name(&self) -> Seq<char> {
        self.name@
    }

    pub closed spec fn spec_namespace(&self) -> Seq<char> {
        self.namespace@
    }

    pub fn new(name: &str, namespace: &str) -> (c: Command)
        ensures
            c.spec_name() == name@,
            c.spec_namespace() == namespace@,
    {
        Command { name: name.to_owned(), namespace: namespace.to_owned() }
    }

    pub fn name(&self) -> (r: &str)
        ensures
            r@ == self.spec_name(),
    {
        self.name.as_str()
    }

    pub fn namespace(&self) -> (r: &str)
        ensures
            r@ == self.spec_namespace(),
    {
        self.namespace.as_str()
    }
}

/// Why a registration was refused.
#[derive(Debug, Clone, Copy, PartialEq, Eq)]
pub enum RegistryError {
    /// The bare name is taken, by whichever namespace.
    AlreadyExists,
}

/// Some entry has the bare name.
pub open spec fn has_name(entries: Seq<Command>, name: Seq<char>) -> bool {
    exists|i: int| 0 <= i < entries.len() && (#[trigger] entries[i]).spec_name() == name
}

/// The place of the entry with the bare name.
pub open spec fn place_of(entries: Seq<Command>, name: Seq<char>) -> int {
    choose|i: int| 0 <= i < entries.len() && (#[trigger] entries[i]).spec_name() == name
}

/// For each bare name among the entries, the namespace of its entry.
pub open spec fn owners(entries: Seq<Command>) -> Map<Seq<char>, Seq<char>> {
    Map::new(
        |n: Seq<char>| has_name(entries, n),
        |n: Seq<char>| entries[place_of(entries, n)].spec_namespace(),
    )
}

/// No bare name occurs twice.
pub open spec fn distinct_names(entries: Seq<Command>) -> bool {
    forall|i: int, j: int|
        0 <= i < j < entries.len() ==> (#[trigger] entries[i]).spec_name() != (
        #[trigger] entries[j]).spec_name()
}

/// A new name behind entries with distinct names: the owners are those of
/// before, and the new name with its namespace.
pub proof fn lemma_owners_push(entries: Seq<Command>, cmd: Command)
    requires
        distinct_names(entries),
        !has_name(entries, cmd.spec_name()),
    ensures
        distinct_names(entries.push(cmd)),
        owners(entries.push(cmd)) == owners(entries).insert(
            cmd.spec_name(),
            cmd.spec_namespace(),
        ),
{
    let after = entries.push(cmd);
    let last = entries.len() as int;
    assert(after[last] == cmd);
    assert forall|i: int, j: int| 0 <= i < j < after.len() implies (#[trigger] after[i]).spec_name()
        != (#[trigger] after[j]).spec_name() by {
        assert(after[i] == entries[i]);
        if j < last {
            assert(after[j] == entries[j]);
        }
    }
    assert forall|n: Seq<char>| has_name(after, n) == (has_name(entries, n) || n
        == cmd.spec_name()) by {
        if has_name(entries, n) {
            let i = place_of(entries, n);
            assert(after[i] == entries[i]);
        }
        if has_name(after, n) {
            let i = place_of(after, n);
            if i < last {
                assert(after[i] == entries[i]);
            }
        }
    }
    assert forall|n: Seq<char>| has_name(after, n) implies #[trigger] owners(after)[n] == owners(
        entries,
    ).insert(cmd.spec_name(), cmd.spec_namespace())[n] by {
        let i = place_of(after, n);
        if n == cmd.spec_name() {
            if i < last {
                assert(after[i] == entries[i]);
            }
        } else {
            assert(after[i] == entries[i]);
            let j = place_of(entries, n);
            assert(after[j] == entries[j]);
            assert(i == j);
        }
    }
    assert(owners(after) =~= owners(entries).insert(cmd.spec_name(), cmd.spec_namespace()));
}

/// The set of registered commands. It only grows, and no bare name occurs in
/// it twice.
pub struct Registry {
    entries: Vec<Command>,
}

impl View for Registry {
    type V = Map<Seq<char>, Seq<char>>;

    /// For each registered bare name, the namespace that owns it.
    closed spec fn view(&self) -> Map<Seq<char>, Seq<char>> {
        owners(self.entries@)
    }
}

impl Registry {
    #[verifier::type_invariant]
    spec fn names_are_distinct(self) -> bool {
        distinct_names(self.entries@)
    }

    pub fn new() -> (r: Registry)
        ensures
            r@ == Map::<Seq<char>, Seq<char>>::empty(),
            r.spec_len() == 0,
    {
        let r = Registry { entries: Vec::new() };
        assert(r@ =~= Map::<Seq<char>, Seq<char>>::empty());
        r
    }

    fn position(&self, name: &str) -> (r: Option<usize>)
        ensures
            r.is_some() == has_name(self.entries@, name@),
            r matches Some(i) ==> i == place_of(self.entries@, name@),
    {
        proof {
            use_type_invariant(self);
        }
        let mut i: usize = 0;
        while i < self.entries.len()
            invariant
                i <= self.entries@.len(),
                distinct_names(self.entries@),
                forall|k: int| 0 <= k < i ==> (#[trigger] self.entries@[k]).name@ != name@,
            decreases self.entries@.len() - i,
        {
            if same_text(self.entries[i].name.as_str(), name) {
                proof {
                    assert(self.entries@[i as int].spec_name() == name@);
                    let j = place_of(self.entries@, name@);
                    assert(self.entries@[j].spec_name() == name@);
                    assert(j == i);
                }
                return Some(i);
            }
            i += 1;
        }
        None
    }

    /// Whether the bare name is registered.
    pub fn contains(&self, name: &str) -> (r: bool)
        ensures
            r == self@.dom().contains(name@),
    {
        self.position(name).is_some()
    }

    /// The namespace that owns the bare name, if it is registered.
    pub fn owner(&self, name: &str) -> (r: Option<String>)
        ensures
            r.is_some() == self@.dom().contains(name@),
            r matches Some(ns) ==> ns@ == self@[name@],
    {
        match self.position(name) {
            Some(i) => Some(self.entries[i].namespace.clone()),
            None => None,
        }
    }

    /// How many commands are registered.
    pub fn len(&self) -> (r: usize)
        ensures
            r == self.spec_len(),
    {
        self.entries.len()
    }

    pub closed spec fn spec_len(&self) -> nat {
        self.entries@.len()
    }

    /// Adds the command unless its bare name is taken, by whichever
    /// namespace. A refusal leaves the registry as it was.
    pub fn register(&mut self, cmd: &Command) -> (r: Result<(), RegistryError>)
        ensures
            old(self)@.submap_of(final(self)@),
            r.is_err() == old(self)@.dom().contains(cmd.spec_name()),
            r matches Err(e) ==> e == RegistryError::AlreadyExists && final(self)@ == old(self)@
                && final(self).spec_len() == old(self).spec_len(),
            r.is_ok() ==> final(self)@ == old(self)@.insert(
                cmd.spec_name(),
                cmd.spec_namespace(),
            ) && final(self).spec_len() == old(self).spec_len() + 1,
    {
        if self.contains(cmd.name.as_str()) {
            return Err(RegistryError::AlreadyExists);
        }
        let entry = Command { name: cmd.name.clone(), namespace: cmd.namespace.clone() };
        proof {
            use_type_invariant(&*self);
            lemma_owners_push(self.entries@, entry);
        }
        let mut entries: Vec<Command> = Vec::new();
        core::mem::swap(&mut self.entries, &mut entries);
        entries.push(entry);
        core::mem::swap(&mut self.entries, &mut entries);
        Ok(())
    }
}

} // verus!
