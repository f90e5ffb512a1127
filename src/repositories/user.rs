use vstd::prelude::*;

use crate::models::user::{CreateUser, User};
use crate::repositories::RepositoryError;

verus! {

/// The first user of `users` named `name`.
pub open spec fn user_named(users: Seq<User>, name: Seq<char>) -> Option<User>
    decreases users.len(),
{
    if users.len() == 0 {
        None
    } else if users[0].name@ == name {
        Some(users[0])
    } else {
        user_named(users.drop_first(), name)
    }
}

/// A store of users: ids are positive, strictly increasing in storage
/// order, and below the id that the next user gets.
pub open spec fn user_store_ok(users: Seq<User>, next_id: i32) -> bool {
    &&& 1 <= next_id
    &&& forall|i: int| 0 <= i < users.len() ==> 1 <= #[trigger] users[i].id < next_id
    &&& forall|i: int, j: int|
        0 <= i < j < users.len() ==> #[trigger] users[i].id < #[trigger] users[j].id
}

/// The operations on users. A name belongs to one user at most.
pub trait UserRepository: Sized {
    /// The users held, in ascending id order.
    spec fn users(&self) -> Seq<User>;

    /// The id that the next new user gets.
    spec fn next_user_id(&self) -> i32;

    spec fn well_formed(&self) -> bool;

    /// A well-formed repository holds its users by ascending, positive ids
    /// below the next one.
    proof fn lemma_users_ordered(&self)
        requires
            self.well_formed(),
        ensures
            user_store_ok(self.users(), self.next_user_id()),
    ;

    /// Creates the user `payload.name`; `Duplicate` with the id of the user
    /// that already has that name, and `Unexpected` only when the ids are
    /// used up.
    fn create(&mut self, payload: CreateUser) -> (r: Result<User, RepositoryError>)
        requires
            old(self).well_formed(),
        ensures
            final(self).well_formed(),
            match user_named(old(self).users(), payload.name@) {
                Some(u) => r == Err::<User, RepositoryError>(RepositoryError::Duplicate(u.id))
                    && final(self).users() == old(self).users() && final(self).next_user_id()
                    == old(self).next_user_id(),
                None => if old(self).next_user_id() < i32::MAX {
                    &&& r == Ok::<User, RepositoryError>(
                        User { id: old(self).next_user_id(), name: payload.name },
                    )
                    &&& final(self).users() == old(self).users().push(
                        User { id: old(self).next_user_id(), name: payload.name },
                    )
                    &&& final(self).next_user_id() == old(self).next_user_id() + 1
                } else {
                    &&& r matches Err(RepositoryError::Unexpected(_))
                    &&& final(self).users() == old(self).users()
                    &&& final(self).next_user_id() == old(self).next_user_id()
                },
            },
    ;

    /// All users, in ascending id order.
    fn all(&self) -> (r: Vec<User>)
        requires
            self.well_formed(),
        ensures
            r@ == self.users(),
    ;

    /// The user named exactly `name`; `NotFound` when there is none.
    fn find_by_name(&self, name: String) -> (r: Result<User, RepositoryError>)
        requires
            self.well_formed(),
        ensures
            r == match user_named(self.users(), name@) {
                Some(u) => Ok::<User, RepositoryError>(u),
                None => Err(RepositoryError::NotFound(0)),
            },
    ;
}

/// Users held in memory, in ascending id order.
#[derive(Debug)]
pub struct UserRepositoryForMemory {
    store: Vec<User>,
    next_id: i32,
}

impl UserRepositoryForMemory {
    pub fn new() -> (r: Self)
        ensures
            r.well_formed(),
            r.users() == Seq::<User>::empty(),
            r.next_user_id() == 1,
    {
        UserRepositoryForMemory { store: Vec::new(), next_id: 1 }
    }

    /// The index of the first user named `name`, if any.
    fn position_of(&self, name: &String) -> (r: Option<usize>)
        ensures
            match r {
                Some(i) => i < self.store@.len() && user_named(self.store@, name@) == Some(
                    self.store@[i as int],
                ),
                None => user_named(self.store@, name@) is None,
            },
    {
        let mut i: usize = 0;
        assert(self.store@.subrange(0, self.store@.len() as int) =~= self.store@);
        while i < self.store.len()
            invariant
                0 <= i <= self.store.len(),
                user_named(self.store@, name@) == user_named(
                    self.store@.subrange(i as int, self.store@.len() as int),
                    name@,
                ),
            decreases self.store.len() - i,
        {
            let ghost rest = self.store@.subrange(i as int, self.store@.len() as int);
            assert(rest.drop_first() =~= self.store@.subrange(i + 1, self.store@.len() as int));
            assert(rest[0] == self.store@[i as int]);
            if self.store[i].name == *name {
                return Some(i);
            }
            i = i + 1;
        }
        None
    }
}

impl UserRepository for UserRepositoryForMemory {
    closed spec fn users(&self) -> Seq<User> {
        self.store@
    }

    closed spec fn next_user_id(&self) -> i32 {
        self.next_id
    }

    closed spec fn well_formed(&self) -> bool {
        user_store_ok(self.store@, self.next_id)
    }

    proof fn lemma_users_ordered(&self) {
    }

    fn create(&mut self, payload: CreateUser) -> (r: Result<User, RepositoryError>) {
        match self.position_of(&payload.name) {
            Some(i) => {
                return Err(RepositoryError::Duplicate(self.store[i].id));
            },
            None => {},
        }
        if self.next_id == i32::MAX {
            return Err(RepositoryError::Unexpected("user ids are used up".to_owned()));
        }
        let user = User { id: self.next_id, name: payload.name };
        self.store.push(user.clone());
        self.next_id = self.next_id + 1;
        Ok(user)
    }

    fn all(&self) -> (r: Vec<User>) {
        let r = self.store.clone();
        assert(r@ =~= self.store@);
        r
    }

    fn find_by_name(&self, name: String) -> (r: Result<User, RepositoryError>) {
        match self.position_of(&name) {
            Some(i) => Ok(self.store[i].clone()),
            None => Err(RepositoryError::NotFound(0)),
        }
    }
}

} // verus!
