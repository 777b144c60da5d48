//! User records and an in-memory model of the credential store's `users`
//! table: unique ids, usernames and emails, with the lookups and updates the
//! authentication flows need.

use vstd::prelude::*;
use vstd::pervasive::VecAdditionalExecFns;
use crate::text::str_eq;

verus! {

/// A durable user record. The password hash is never serialized outward.
#[derive(Clone, Debug)]
pub struct User {
    pub id: u128,
    pub username: String,
    pub email: String,
    pub password_hash: String,
    pub avatar_url: Option<String>,
    pub created_at: i64,
    pub updated_at: i64,
    pub last_login: Option<i64>,
}

impl User {
    /// An owned field-for-field copy of the record.
    pub fn duplicate(&self) -> (u: User)
        ensures
            u == *self,
    {
        User {
            id: self.id,
            username: self.username.clone(),
            email: self.email.clone(),
            password_hash: self.password_hash.clone(),
            avatar_url: match &self.avatar_url {
                Some(s) => Some(s.clone()),
                None => None,
            },
            created_at: self.created_at,
            updated_at: self.updated_at,
            last_login: self.last_login,
        }
    }
}

/// The given record with its last-login time set.
pub open spec fn with_login(u: User, now: i64) -> User {
    User { last_login: Some(now), ..u }
}

/// The `users` table: rows with unique ids, usernames and emails, and a
/// fresh-id counter standing in for the store's identifier generator.
pub struct UserTable {
    users: Vec<User>,
    next_id: u128,
}

impl UserTable {
    pub closed spec fn rows(&self) -> Seq<User> {
        self.users@
    }

    pub closed spec fn spec_next_id(&self) -> u128 {
        self.next_id
    }

    /// Table invariant: ids, usernames and emails are pairwise distinct, and
    /// every id is below the fresh-id counter.
    pub open spec fn wf(&self) -> bool {
        &&& forall|i: int, j: int|
            #![trigger self.rows()[i], self.rows()[j]]
            0 <= i < j < self.rows().len() ==> self.rows()[i].id != self.rows()[j].id
                && self.rows()[i].username@ != self.rows()[j].username@
                && self.rows()[i].email@ != self.rows()[j].email@
        &&& forall|i: int|
            0 <= i < self.rows().len() ==> (#[trigger] self.rows()[i]).id < self.spec_next_id()
    }

    pub open spec fn has_email(&self, email: Seq<char>) -> bool {
        exists|i: int| 0 <= i < self.rows().len() && (#[trigger] self.rows()[i]).email@ == email
    }

    pub open spec fn has_username(&self, username: Seq<char>) -> bool {
        exists|i: int|
            0 <= i < self.rows().len() && (#[trigger] self.rows()[i]).username@ == username
    }

    pub open spec fn has_id(&self, id: u128) -> bool {
        exists|i: int| 0 <= i < self.rows().len() && (#[trigger] self.rows()[i]).id == id
    }

    pub fn new() -> (t: UserTable)
        ensures
            t.wf(),
            t.rows().len() == 0,
    {
        UserTable { users: Vec::new(), next_id: 1 }
    }

    pub fn len(&self) -> (n: usize)
        ensures
            n == self.rows().len(),
    {
        self.users.len()
    }

    /// The next identifier the store would assign.
    pub fn fresh_id(&self) -> (id: u128)
        ensures
            id == self.spec_next_id(),
    {
        self.next_id
    }

    pub fn find_by_email(&self, email: &str) -> (r: Option<&User>)
        ensures
            match r {
                Some(u) => u.email@ == email@ && exists|i: int|
                    0 <= i < self.rows().len() && #[trigger] self.rows()[i] == *u,
                None => !self.has_email(email@),
            },
    {
        let n = self.users.len();
        let mut i: usize = 0;
        while i < n
            invariant
                n == self.rows().len(),
                0 <= i <= n,
                forall|j: int| 0 <= j < i ==> (#[trigger] self.rows()[j]).email@ != email@,
            decreases n - i,
        {
            if str_eq(self.users[i].email.as_str(), email) {
                return Some(&self.users[i]);
            }
            i = i + 1;
        }
        None
    }

    pub fn find_by_id(&self, id: u128) -> (r: Option<&User>)
        ensures
            match r {
                Some(u) => u.id == id && exists|i: int|
                    0 <= i < self.rows().len() && #[trigger] self.rows()[i] == *u,
                None => !self.has_id(id),
            },
    {
        let n = self.users.len();
        let mut i: usize = 0;
        while i < n
            invariant
                n == self.rows().len(),
                0 <= i <= n,
                forall|j: int| 0 <= j < i ==> (#[trigger] self.rows()[j]).id != id,
            decreases n - i,
        {
            if self.users[i].id == id {
                return Some(&self.users[i]);
            }
            i = i + 1;
        }
        None
    }

    pub fn username_taken(&self, username: &str) -> (r: bool)
        ensures
            r == self.has_username(username@),
    {
        let n = self.users.len();
        let mut i: usize = 0;
        while i < n
            invariant
                n == self.rows().len(),
                0 <= i <= n,
                forall|j: int| 0 <= j < i ==> (#[trigger] self.rows()[j]).username@ != username@,
            decreases n - i,
        {
            if str_eq(self.users[i].username.as_str(), username) {
                return true;
            }
            i = i + 1;
        }
        false
    }

    pub fn email_taken(&self, email: &str) -> (r: bool)
        ensures
            r == self.has_email(email@),
    {
        match self.find_by_email(email) {
            Some(_) => true,
            None => false,
        }
    }

    /// Inserts a fresh row; the store assigns the next free identifier.
    pub fn insert(&mut self, username: String, email: String, password_hash: String, now: i64) -> (u: User)
        requires
            old(self).wf(),
            old(self).spec_next_id() < u128::MAX,
            !old(self).has_username(username@),
            !old(self).has_email(email@),
        ensures
            final(self).wf(),
            final(self).rows() == old(self).rows().push(u),
            final(self).spec_next_id() == old(self).spec_next_id() + 1,
            u.id == old(self).spec_next_id(),
            u.username == username,
            u.email == email,
            u.password_hash == password_hash,
            u.avatar_url is None,
            u.created_at == now,
            u.updated_at == now,
            u.last_login is None,
    {
        let u = User {
            id: self.next_id,
            username,
            email,
            password_hash,
            avatar_url: None,
            created_at: now,
            updated_at: now,
            last_login: None,
        };
        let copy = u.duplicate();
        self.users.push(copy);
        self.next_id = self.next_id + 1;
        proof {
            assert forall|i: int, j: int|
                0 <= i < j < self.rows().len() implies #[trigger] self.rows()[i].id
                != #[trigger] self.rows()[j].id && self.rows()[i].username@
                != self.rows()[j].username@ && self.rows()[i].email@
                != self.rows()[j].email@ by {
                if j == self.rows().len() - 1 {
                    assert(old(self).rows()[i] == self.rows()[i]);
                }
            }
        }
        u
    }

    /// Records a successful login time on the row with the given id; any
    /// other row is untouched.
    pub fn set_last_login(&mut self, id: u128, now: i64)
        requires
            old(self).wf(),
        ensures
            final(self).wf(),
            final(self).rows().len() == old(self).rows().len(),
            final(self).spec_next_id() == old(self).spec_next_id(),
            forall|i: int|
                0 <= i < old(self).rows().len() ==> #[trigger] final(self).rows()[i] == (if old(
                    self,
                ).rows()[i].id == id {
                    with_login(old(self).rows()[i], now)
                } else {
                    old(self).rows()[i]
                }),
    {
        let n = self.users.len();
        let mut i: usize = 0;
        while i < n
            invariant
                old(self).wf(),
                n == old(self).rows().len() == self.rows().len(),
                self.spec_next_id() == old(self).spec_next_id(),
                0 <= i <= n,
                forall|j: int| 0 <= j < i ==> (#[trigger] old(self).rows()[j]).id != id,
                self.rows() == old(self).rows(),
            decreases n - i,
        {
            if self.users[i].id == id {
                let updated = User {
                    id: self.users[i].id,
                    username: self.users[i].username.clone(),
                    email: self.users[i].email.clone(),
                    password_hash: self.users[i].password_hash.clone(),
                    avatar_url: match &self.users[i].avatar_url {
                        Some(s) => Some(s.clone()),
                        None => None,
                    },
                    created_at: self.users[i].created_at,
                    updated_at: self.users[i].updated_at,
                    last_login: Some(now),
                };
                assert(updated == with_login(old(self).rows()[i as int], now));
                self.users.set(i, updated);
                proof {
                    assert forall|a: int, b: int|
                        0 <= a < b < self.rows().len() implies #[trigger] self.rows()[a].id
                        != #[trigger] self.rows()[b].id && self.rows()[a].username@
                        != self.rows()[b].username@ && self.rows()[a].email@
                        != self.rows()[b].email@ by {
                        assert(old(self).rows()[a].id != old(self).rows()[b].id);
                    }
                }
                return ;
            }
            i = i + 1;
        }
    }
}

} // verus!
