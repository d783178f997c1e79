//! Accounts of the people who chat, and partial updates of them.

use vstd::prelude::*;
use crate::error::ChatError;

verus! {

/// An account on record.
#[derive(Clone, Debug, PartialEq, Eq)]
pub struct User {
    pub id: i32,
    pub username: String,
    pub password: String,
}

/// The mathematical value of a [`User`].
pub struct UserView {
    pub id: int,
    pub username: Seq<char>,
    pub password: Seq<char>,
}

impl View for User {
    type V = UserView;

    open spec fn view(&self) -> UserView {
        UserView { id: self.id as int, username: self.username@, password: self.password@ }
    }
}

/// An account as a client writes it when creating or changing one: every
/// field may be left out.
#[derive(Clone, Debug, PartialEq, Eq)]
pub struct UpsertModel {
    pub id: Option<i32>,
    pub username: Option<String>,
    pub password: Option<String>,
}

/// The mathematical value of an [`UpsertModel`].
pub struct UpsertView {
    pub id: Option<int>,
    pub username: Option<Seq<char>>,
    pub password: Option<Seq<char>>,
}

/// The value of a string that may be absent.
pub open spec fn text_view(text: Option<String>) -> Option<Seq<char>> {
    match text {
        Some(s) => Some(s@),
        None => None,
    }
}

impl View for UpsertModel {
    type V = UpsertView;

    open spec fn view(&self) -> UpsertView {
        UpsertView {
            id: match self.id {
                Some(id) => Some(id as int),
                None => None,
            },
            username: text_view(self.username),
            password: text_view(self.password),
        }
    }
}

impl UpsertView {
    /// The account after the update: what the update names replaces what is
    /// on record, the rest stays.
    pub open spec fn applied_to(self, existing: UserView) -> UserView {
        UserView {
            id: existing.id,
            username: match self.username {
                Some(name) => name,
                None => existing.username,
            },
            password: match self.password {
                Some(word) => word,
                None => existing.password,
            },
        }
    }

    /// The account that the request creates under `id`, where it names both
    /// a user name and a password.
    pub open spec fn created_as(self, id: int) -> Option<UserView> {
        if self.username is Some && self.password is Some {
            Some(UserView { id, username: self.username.unwrap(), password: self.password.unwrap() })
        } else {
            None
        }
    }
}

impl UpsertModel {
    /// Applies the update to the account on record: the fields that the
    /// update names replace the recorded ones, the id and the rest stay.
    pub fn apply(self, existing: User) -> (updated: User)
        ensures
            updated@ == self@.applied_to(existing@),
    {
        let User { id, username, password } = existing;
        User {
            id,
            username: match self.username {
                Some(name) => name,
                None => username,
            },
            password: match self.password {
                Some(word) => word,
                None => password,
            },
        }
    }

    /// Makes the account that the request creates, under `id`.
    ///
    /// Fails with `Validation` if the user name or the password is missing.
    pub fn create(self, id: i32) -> (made: Result<User, ChatError>)
        ensures
            match self@.created_as(id as int) {
                Some(user) => made is Ok && made.unwrap()@ == user,
                None => made == Err::<User, ChatError>(ChatError::Validation),
            },
    {
        match (self.username, self.password) {
            (Some(username), Some(password)) => Ok(User { id, username, password }),
            _ => Err(ChatError::Validation),
        }
    }
}

} // verus!
