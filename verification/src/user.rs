//! The directory of known users: one record per user id, the first one
//! written.

use vstd::prelude::*;
use crate::message::Rgb;

verus! {

/// A user as the chat service describes them.
#[derive(Debug, Clone, PartialEq, Eq)]
pub struct User {
    pub userid: i64,
    pub display: String,
    pub color: Rgb,
}

impl User {
    pub fn duplicate(&self) -> (r: User)
        ensures
            r == *self,
    {
        User { userid: self.userid, display: self.display.clone(), color: self.color }
    }
}

/// A character with the ASCII capitals folded onto the small letters.
pub open spec fn folded(c: char) -> int {
    if 'A' <= c <= 'Z' {
        c as int + 32
    } else {
        c as int
    }
}

/// The two names are the same but for the case of ASCII letters.
pub open spec fn same_name(a: Seq<char>, b: Seq<char>) -> bool {
    a.len() == b.len() && forall|i: int| 0 <= i < a.len() ==> folded(a[i]) == folded(b[i])
}

/// Some record of `users` has the id.
pub open spec fn holds_id(users: Seq<User>, id: i64) -> bool {
    exists|i: int| 0 <= i < users.len() && (#[trigger] users[i]).userid == id
}

/// The records after `user` is created: unchanged where the id is known,
/// else with `user` at the end.
pub open spec fn created(users: Seq<User>, user: User) -> Seq<User> {
    if holds_id(users, user.userid) {
        users
    } else {
        users.push(user)
    }
}

/// No id occurs twice.
pub open spec fn distinct_ids(users: Seq<User>) -> bool {
    forall|i: int, j: int|
        0 <= i < j < users.len() ==> (#[trigger] users[i]).userid != (#[trigger] users[j]).userid
}

/// Creating a user keeps the ids distinct.
pub proof fn lemma_created_distinct(users: Seq<User>, user: User)
    requires
        distinct_ids(users),
    ensures
        distinct_ids(created(users, user)),
{
    if !holds_id(users, user.userid) {
        let after = users.push(user);
        assert forall|i: int, j: int| 0 <= i < j < after.len() implies (#[trigger] after[i]).userid
            != (#[trigger] after[j]).userid by {
            if j == users.len() {
                assert(after[i] == users[i]);
            } else {
                assert(after[i] == users[i]);
                assert(after[j] == users[j]);
            }
        }
    }
}

/// Creating a user a second time changes nothing: whatever the second record
/// says, the first one stays, and it stays alone.
pub proof fn lemma_create_twice(users: Seq<User>, first: User, second: User)
    requires
        first.userid == second.userid,
    ensures
        created(created(users, first), second) == created(users, first),
{
    let once = created(users, first);
    if !holds_id(users, first.userid) {
        assert(once[users.len() as int].userid == second.userid);
    }
    assert(holds_id(once, second.userid));
}

pub fn fold(c: char) -> (r: u32)
    ensures
        r == folded(c),
{
    let v: u32 = c as u32;
    if 'A' <= c && c <= 'Z' {
        v + 32
    } else {
        v
    }
}

/// Whether the two names are the same but for the case of ASCII letters.
pub fn names_agree(a: &str, b: &str) -> (r: bool)
    ensures
        r == same_name(a@, b@),
{
    let n: usize = a.unicode_len();
    if n != b.unicode_len() {
        return false;
    }
    let mut i: usize = 0;
    while i < n
        invariant
            i <= n,
            n == a@.len(),
            n == b@.len(),
            forall|k: int| 0 <= k < i ==> folded(a@[k]) == folded(b@[k]),
        decreases n - i,
    {
        if fold(a.get_char(i)) != fold(b.get_char(i)) {
            return false;
        }
        i += 1;
    }
    true
}

/// The directory. Its view is the records in the order of their creation.
pub struct UserStore {
    users: Vec<User>,
}

impl View for UserStore {
    type V = Seq<User>;

    closed spec fn view(&self) -> Seq<User> {
        self.users@
    }
}

impl UserStore {
    /// An empty directory.
    pub fn new() -> (r: UserStore)
        ensures
            r@.len() == 0,
    {
        UserStore { users: Vec::new() }
    }

    /// How many records the directory holds.
    pub fn len(&self) -> (r: usize)
        ensures
            r == self@.len(),
    {
        self.users.len()
    }

    /// Adds the record unless one with its id is there: the first write wins.
    pub fn create_user(&mut self, user: &User)
        ensures
            final(self)@ == created(old(self)@, *user),
            distinct_ids(old(self)@) ==> distinct_ids(final(self)@),
    {
        proof {
            if distinct_ids(self@) {
                lemma_created_distinct(self@, *user);
            }
        }
        let mut i: usize = 0;
        while i < self.users.len()
            invariant
                i <= self.users@.len(),
                self.users@ == old(self)@,
                forall|k: int| 0 <= k < i ==> (#[trigger] self.users@[k]).userid != user.userid,
            decreases self.users@.len() - i,
        {
            if self.users[i].userid == user.userid {
                return ;
            }
            i += 1;
        }
        self.users.push(user.duplicate());
    }

    /// The record with the id, if there is one.
    pub fn get_user_by_id(&self, id: i64) -> (r: Option<User>)
        ensures
            r.is_some() == holds_id(self@, id),
            r matches Some(u) ==> u.userid == id && exists|k: int|
                {
                    &&& 0 <= k < self@.len()
                    &&& #[trigger] self@[k] == u
                    &&& forall|j: int| 0 <= j < k ==> (#[trigger] self@[j]).userid != id
                },
    {
        let mut i: usize = 0;
        while i < self.users.len()
            invariant
                i <= self.users@.len(),
                forall|k: int| 0 <= k < i ==> (#[trigger] self.users@[k]).userid != id,
            decreases self.users@.len() - i,
        {
            if self.users[i].userid == id {
                return Some(self.users[i].duplicate());
            }
            i += 1;
        }
        None
    }

    /// The earliest record whose display name is `name` but for the case of
    /// ASCII letters, if there is one.
    pub fn get_user_by_name(&self, name: &str) -> (r: Option<User>)
        ensures
            r.is_some() == exists|i: int|
                0 <= i < self@.len() && same_name((#[trigger] self@[i]).display@, name@),
            r matches Some(u) ==> exists|k: int|
                {
                    &&& 0 <= k < self@.len()
                    &&& #[trigger] self@[k] == u
                    &&& same_name(u.display@, name@)
                    &&& forall|j: int|
                        0 <= j < k ==> !same_name((#[trigger] self@[j]).display@, name@)
                },
    {
        let mut i: usize = 0;
        while i < self.users.len()
            invariant
                i <= self.users@.len(),
                forall|k: int|
                    0 <= k < i ==> !same_name((#[trigger] self.users@[k]).display@, name@),
            decreases self.users@.len() - i,
        {
            if names_agree(self.users[i].display.as_str(), name) {
                let u = self.users[i].duplicate();
                assert(self@[i as int] == u && same_name(self@[i as int].display@, name@));
                return Some(u);
            }
            i += 1;
        }
        None
    }

    /// The bot's own record, found by its name.
    pub fn get_bot(&self, name: &str) -> (r: Option<User>)
        ensures
            r.is_some() == exists|i: int|
                0 <= i < self@.len() && same_name((#[trigger] self@[i]).display@, name@),
            r matches Some(u) ==> exists|k: int|
                {
                    &&& 0 <= k < self@.len()
                    &&& #[trigger] self@[k] == u
                    &&& same_name(u.display@, name@)
                    &&& forall|j: int|
                        0 <= j < k ==> !same_name((#[trigger] self@[j]).display@, name@)
                },
    {
        self.get_user_by_name(name)
    }
}

} // verus!
