//! The credential store: a keyed-record store for user records and session
//! tokens, plus an append-only audit log of login attempts. It reports
//! uniqueness violations and capacity exhaustion as distinguishable errors.

use vstd::prelude::*;

use crate::text::str_eq;
use vstd::slice::slice_to_vec;
use vstd::string::StringExecFns;

verus! {

/// Records a store can hold at most; keeps every derived identifier within `i64`.
pub const STORE_CAPACITY: usize = 0x7fff_ffff;

// ---------------------------------------------------------------------------
// Records and their mathematical views.
// ---------------------------------------------------------------------------

/// A user record: unique identifier, unique email, password hash (never the
/// plaintext), and timestamps. Immutable once created.
pub struct User {
    pub id: i64,
    pub email: String,
    pub password: String,
    pub date_created: i64,
    pub date_modified: i64,
}

/// What a caller supplies to create a user; `password` is the hash.
pub struct NewUser<'a> {
    pub email: &'a str,
    pub password: &'a str,
}

/// A server-held session token bound to one user; expiry is strictly after
/// creation, and an identifier is never reused.
pub struct AuthToken {
    pub id: i64,
    pub user_id: i64,
    pub token: Vec<u8>,
    pub date_created: i64,
    pub date_expired: i64,
    pub token_type: String,
}

/// What the issuer supplies to persist a session token.
pub struct NewAuthToken<'a> {
    pub user_id: i64,
    pub token: Vec<u8>,
    pub date_created: i64,
    pub date_expired: i64,
    pub token_type: &'a str,
}

/// One audit record of a login attempt, success or failure.
pub struct AuthLog {
    pub id: i64,
    pub email: String,
    pub success: bool,
    pub ip_address: String,
    pub user_agent: String,
    pub date_created: i64,
}

/// What the orchestrator supplies to append an audit record.
pub struct NewAuthLog<'a> {
    pub email: &'a str,
    pub success: bool,
    pub ip_address: &'a str,
    pub user_agent: &'a str,
    pub date_created: i64,
}

pub ghost struct SpecUser {
    pub id: int,
    pub email: Seq<char>,
    pub password: Seq<char>,
    pub date_created: int,
    pub date_modified: int,
}

pub ghost struct SpecAuthToken {
    pub id: int,
    pub user_id: int,
    pub token: Seq<u8>,
    pub date_created: int,
    pub date_expired: int,
    pub token_type: Seq<char>,
}

pub ghost struct SpecAuthLog {
    pub id: int,
    pub email: Seq<char>,
    pub success: bool,
    pub ip_address: Seq<char>,
    pub user_agent: Seq<char>,
    pub date_created: int,
}

impl View for User {
    type V = SpecUser;

    open spec fn view(&self) -> SpecUser {
        SpecUser {
            id: self.id as int,
            email: self.email@,
            password: self.password@,
            date_created: self.date_created as int,
            date_modified: self.date_modified as int,
        }
    }
}

impl View for AuthToken {
    type V = SpecAuthToken;

    open spec fn view(&self) -> SpecAuthToken {
        SpecAuthToken {
            id: self.id as int,
            user_id: self.user_id as int,
            token: self.token@,
            date_created: self.date_created as int,
            date_expired: self.date_expired as int,
            token_type: self.token_type@,
        }
    }
}

impl View for AuthLog {
    type V = SpecAuthLog;

    open spec fn view(&self) -> SpecAuthLog {
        SpecAuthLog {
            id: self.id as int,
            email: self.email@,
            success: self.success,
            ip_address: self.ip_address@,
            user_agent: self.user_agent@,
            date_created: self.date_created as int,
        }
    }
}

// ---------------------------------------------------------------------------
// Errors, mirroring the store's distinguishable outcomes.
// ---------------------------------------------------------------------------

/// Infrastructure failure of the credential subsystem; fatal to the
/// request, never retried.
#[derive(Debug, PartialEq, Eq, Structural)]
pub enum StoreFailure {
    /// No identifier is left for a new record.
    IdSpaceExhausted,
    /// The password hash reported a failure.
    HashingFailed,
    /// A computed timestamp left the representable range.
    ClockRangeExceeded,
}

#[derive(Debug, PartialEq, Eq, Structural)]
pub enum CreateUserError {
    EmailExists,
    OtherDbError(StoreFailure),
}

#[derive(Debug, PartialEq, Eq, Structural)]
pub enum GetUserError {
    UserNotFound,
    OtherDbError(StoreFailure),
}

#[derive(Debug, PartialEq, Eq, Structural)]
pub enum CreateAuthTokenError {
    OtherDbError(StoreFailure),
}

#[derive(Debug, PartialEq, Eq, Structural)]
pub enum GetAuthTokenError {
    AuthTokenNotFound,
    OtherDbError(StoreFailure),
}

#[derive(Debug, PartialEq, Eq, Structural)]
pub enum CreateAuthLogError {
    OtherDbError(StoreFailure),
}

// ---------------------------------------------------------------------------
// The store and its view.
// ---------------------------------------------------------------------------

/// In-memory keyed-record store backing the credential subsystem.
pub struct CredentialStore {
    pub users: Vec<User>,
    pub tokens: Vec<AuthToken>,
    pub auth_log: Vec<AuthLog>,
    pub next_token_id: i64,
}

pub ghost struct SpecStore {
    pub users: Seq<SpecUser>,
    pub tokens: Seq<SpecAuthToken>,
    pub auth_log: Seq<SpecAuthLog>,
    pub next_token_id: int,
}

impl View for CredentialStore {
    type V = SpecStore;

    open spec fn view(&self) -> SpecStore {
        SpecStore {
            users: self.users@.map_values(|u: User| u@),
            tokens: self.tokens@.map_values(|t: AuthToken| t@),
            auth_log: self.auth_log@.map_values(|l: AuthLog| l@),
            next_token_id: self.next_token_id as int,
        }
    }
}

/// First user whose email equals `email`, scanning from the front.
pub open spec fn user_by_email(users: Seq<SpecUser>, email: Seq<char>) -> Option<SpecUser>
    decreases users.len(),
{
    if users.len() == 0 {
        None
    } else if users[0].email == email {
        Some(users[0])
    } else {
        user_by_email(users.skip(1), email)
    }
}

/// First token with identifier `id`, scanning from the front.
pub open spec fn token_by_id(tokens: Seq<SpecAuthToken>, id: int) -> Option<SpecAuthToken>
    decreases tokens.len(),
{
    if tokens.len() == 0 {
        None
    } else if tokens[0].id == id {
        Some(tokens[0])
    } else {
        token_by_id(tokens.skip(1), id)
    }
}

/// A found user is an element of the sequence; none is found exactly when
/// no element has the email.
pub proof fn lemma_user_by_email(users: Seq<SpecUser>, email: Seq<char>)
    ensures
        user_by_email(users, email) is Some <==> exists|i: int|
            0 <= i < users.len() && #[trigger] users[i].email == email,
        user_by_email(users, email) is Some ==> exists|i: int|
            0 <= i < users.len() && #[trigger] users[i] == user_by_email(users, email).unwrap()
                && users[i].email == email,
    decreases users.len(),
{
    if users.len() == 0 {
    } else if users[0].email == email {
    } else {
        lemma_user_by_email(users.skip(1), email);
        if user_by_email(users.skip(1), email) is Some {
            let j = choose|j: int|
                0 <= j < users.skip(1).len() && #[trigger] users.skip(1)[j] == user_by_email(
                    users.skip(1),
                    email,
                ).unwrap() && users.skip(1)[j].email == email;
            assert(users[j + 1] == users.skip(1)[j]);
        }
        if exists|i: int| 0 <= i < users.len() && #[trigger] users[i].email == email {
            let i = choose|i: int| 0 <= i < users.len() && #[trigger] users[i].email == email;
            assert(users.skip(1)[i - 1] == users[i]);
        }
    }
}

/// Same characterization for tokens.
pub proof fn lemma_token_by_id(tokens: Seq<SpecAuthToken>, id: int)
    ensures
        token_by_id(tokens, id) is Some <==> exists|i: int|
            0 <= i < tokens.len() && #[trigger] tokens[i].id == id,
        token_by_id(tokens, id) is Some ==> exists|i: int|
            0 <= i < tokens.len() && #[trigger] tokens[i] == token_by_id(tokens, id).unwrap()
                && tokens[i].id == id,
    decreases tokens.len(),
{
    if tokens.len() == 0 {
    } else if tokens[0].id == id {
    } else {
        lemma_token_by_id(tokens.skip(1), id);
        if token_by_id(tokens.skip(1), id) is Some {
            let j = choose|j: int|
                0 <= j < tokens.skip(1).len() && #[trigger] tokens.skip(1)[j] == token_by_id(
                    tokens.skip(1),
                    id,
                ).unwrap() && tokens.skip(1)[j].id == id;
            assert(tokens[j + 1] == tokens.skip(1)[j]);
        }
        if exists|i: int| 0 <= i < tokens.len() && #[trigger] tokens[i].id == id {
            let i = choose|i: int| 0 <= i < tokens.len() && #[trigger] tokens[i].id == id;
            assert(tokens.skip(1)[i - 1] == tokens[i]);
        }
    }
}

impl SpecStore {
    /// Emails unique; user identifiers are their one-based positions; token
    /// identifiers unique, below the counter, with expiry after creation.
    pub open spec fn wf(self) -> bool {
        &&& self.users.len() <= STORE_CAPACITY
        &&& self.auth_log.len() <= STORE_CAPACITY
        &&& forall|i: int, j: int|
            0 <= i < j < self.users.len() ==> self.users[i].email != self.users[j].email
        &&& forall|i: int| 0 <= i < self.users.len() ==> (#[trigger] self.users[i]).id == i + 1
        &&& forall|i: int|
            0 <= i < self.auth_log.len() ==> (#[trigger] self.auth_log[i]).id == i + 1
        &&& forall|i: int, j: int|
            0 <= i < j < self.tokens.len() ==> self.tokens[i].id < self.tokens[j].id
        &&& forall|i: int|
            0 <= i < self.tokens.len() ==> 1 <= (#[trigger] self.tokens[i]).id
                < self.next_token_id && self.tokens[i].date_created < self.tokens[i].date_expired
        &&& 1 <= self.next_token_id <= i64::MAX
    }

    /// There is a user with this email.
    pub open spec fn has_email(self, email: Seq<char>) -> bool {
        user_by_email(self.users, email) is Some
    }
}

impl CredentialStore {
    /// An empty store.
    pub fn new() -> (s: CredentialStore)
        ensures
            s@.wf(),
            s@.users.len() == 0,
            s@.tokens.len() == 0,
            s@.auth_log.len() == 0,
            s@.next_token_id == 1,
    {
        CredentialStore { users: Vec::new(), tokens: Vec::new(), auth_log: Vec::new(), next_token_id: 1 }
    }

    /// Inserts a user record, reporting a duplicate email as the
    /// distinguishable unique-constraint outcome.
    pub fn create_user(&mut self, new_user: &NewUser<'_>, now: i64) -> (r: Result<
        User,
        CreateUserError,
    >)
        requires
            old(self)@.wf(),
        ensures
            final(self)@.wf(),
            final(self)@.tokens == old(self)@.tokens,
            final(self)@.auth_log == old(self)@.auth_log,
            final(self)@.next_token_id == old(self)@.next_token_id,
            match r {
                Ok(u) => {
                    &&& !old(self)@.has_email(new_user.email@)
                    &&& old(self)@.users.len() < STORE_CAPACITY
                    &&& final(self)@.users == old(self)@.users.push(u@)
                    &&& u@.id == old(self)@.users.len() + 1
                    &&& u@.email == new_user.email@
                    &&& u@.password == new_user.password@
                    &&& u@.date_created == now
                    &&& u@.date_modified == now
                },
                Err(CreateUserError::EmailExists) => old(self)@.has_email(new_user.email@)
                    && final(self)@ == old(self)@,
                Err(CreateUserError::OtherDbError(_)) => !old(self)@.has_email(new_user.email@)
                    && old(self)@.users.len() >= STORE_CAPACITY && final(self)@ == old(self)@,
            },
    {
        match self.get_user_by_email(new_user.email) {
            Ok(_) => Err(CreateUserError::EmailExists),
            Err(GetUserError::OtherDbError(e)) => Err(CreateUserError::OtherDbError(e)),
            Err(GetUserError::UserNotFound) => {
                if self.users.len() >= STORE_CAPACITY {
                    return Err(CreateUserError::OtherDbError(StoreFailure::IdSpaceExhausted));
                }
                let id = (self.users.len() + 1) as i64;
                let stored = User {
                    id,
                    email: String::from_str(new_user.email),
                    password: String::from_str(new_user.password),
                    date_created: now,
                    date_modified: now,
                };
                let returned = User {
                    id,
                    email: String::from_str(new_user.email),
                    password: String::from_str(new_user.password),
                    date_created: now,
                    date_modified: now,
                };
                proof {
                    lemma_user_by_email(old(self)@.users, new_user.email@);
                }
                self.users.push(stored);
                proof {
                    assert(self@.users =~= old(self)@.users.push(returned@));
                    assert(self@.tokens =~= old(self)@.tokens);
                    assert(self@.auth_log =~= old(self)@.auth_log);
                    assert forall|i: int, j: int|
                        0 <= i < j < self@.users.len() implies self@.users[i].email
                        != self@.users[j].email by {
                        if j + 1 == self@.users.len() {
                            assert(self@.users[i] == old(self)@.users[i]);
                        }
                    }
                }
                Ok(returned)
            },
        }
    }

    /// Looks a user up by email.
    pub fn get_user_by_email(&self, email_to_check: &str) -> (r: Result<User, GetUserError>)
        ensures
            match r {
                Ok(u) => user_by_email(self@.users, email_to_check@) == Some(u@),
                Err(GetUserError::UserNotFound) => !self@.has_email(email_to_check@),
                Err(GetUserError::OtherDbError(_)) => false,
            },
    {
        let n = self.users.len();
        let mut k: usize = 0;
        proof {
            assert(self@.users.skip(0) =~= self@.users);
        }
        while k < n
            invariant
                k <= n,
                n == self@.users.len(),
                n == self.users@.len(),
                user_by_email(self@.users, email_to_check@) == user_by_email(
                    self@.users.skip(k as int),
                    email_to_check@,
                ),
            decreases n - k,
        {
            let ghost pre = self@.users.skip(k as int);
            proof {
                assert(pre.len() > 0 && pre[0] == self@.users[k as int]);
                assert(pre.skip(1) =~= self@.users.skip(k + 1));
            }
            let u = &self.users[k];
            if str_eq(u.email.as_str(), email_to_check) {
                let found = User {
                    id: u.id,
                    email: u.email.clone(),
                    password: u.password.clone(),
                    date_created: u.date_created,
                    date_modified: u.date_modified,
                };
                return Ok(found);
            }
            k = k + 1;
        }
        proof {
            assert(self@.users.skip(n as int) =~= Seq::<SpecUser>::empty());
        }
        Err(GetUserError::UserNotFound)
    }

    /// Looks a user up by identifier.
    pub fn get_user_by_id(&self, user_id: i64) -> (r: Result<User, GetUserError>)
        requires
            self@.wf(),
        ensures
            match r {
                Ok(u) => 1 <= user_id <= self@.users.len() && u@ == self@.users[user_id - 1],
                Err(GetUserError::UserNotFound) => !(1 <= user_id <= self@.users.len()),
                Err(GetUserError::OtherDbError(_)) => false,
            },
    {
        proof {
            assert(self@.users.len() == self.users@.len());
        }
        if user_id < 1 || user_id > self.users.len() as i64 {
            return Err(GetUserError::UserNotFound);
        }
        let u = &self.users[(user_id - 1) as usize];
        Ok(
            User {
                id: u.id,
                email: u.email.clone(),
                password: u.password.clone(),
                date_created: u.date_created,
                date_modified: u.date_modified,
            },
        )
    }

    /// Persists a session token under a fresh identifier.
    pub fn create_token(&mut self, new_token: &NewAuthToken<'_>) -> (r: Result<
        AuthToken,
        CreateAuthTokenError,
    >)
        requires
            old(self)@.wf(),
            new_token.date_created < new_token.date_expired,
        ensures
            final(self)@.wf(),
            final(self)@.users == old(self)@.users,
            final(self)@.auth_log == old(self)@.auth_log,
            match r {
                Ok(t) => {
                    &&& old(self)@.next_token_id < i64::MAX
                    &&& final(self)@.tokens == old(self)@.tokens.push(t@)
                    &&& final(self)@.next_token_id == old(self)@.next_token_id + 1
                    &&& t@.id == old(self)@.next_token_id
                    &&& t@.user_id == new_token.user_id
                    &&& t@.token == new_token.token@
                    &&& t@.date_created == new_token.date_created
                    &&& t@.date_expired == new_token.date_expired
                    &&& t@.token_type == new_token.token_type@
                },
                Err(CreateAuthTokenError::OtherDbError(_)) => old(self)@.next_token_id == i64::MAX
                    && final(self)@ == old(self)@,
            },
    {
        if self.next_token_id == i64::MAX {
            return Err(CreateAuthTokenError::OtherDbError(StoreFailure::IdSpaceExhausted));
        }
        let id = self.next_token_id;
        let stored = AuthToken {
            id,
            user_id: new_token.user_id,
            token: slice_to_vec(new_token.token.as_slice()),
            date_created: new_token.date_created,
            date_expired: new_token.date_expired,
            token_type: String::from_str(new_token.token_type),
        };
        let returned = AuthToken {
            id,
            user_id: new_token.user_id,
            token: slice_to_vec(new_token.token.as_slice()),
            date_created: new_token.date_created,
            date_expired: new_token.date_expired,
            token_type: String::from_str(new_token.token_type),
        };
        self.tokens.push(stored);
        self.next_token_id = id + 1;
        proof {
            assert(self@.tokens =~= old(self)@.tokens.push(returned@));
            assert(self@.users =~= old(self)@.users);
            assert(self@.auth_log =~= old(self)@.auth_log);
            assert forall|i: int, j: int|
                0 <= i < j < self@.tokens.len() implies self@.tokens[i].id
                < self@.tokens[j].id by {
                if j + 1 == self@.tokens.len() {
                    assert(self@.tokens[i] == old(self)@.tokens[i]);
                }
            }
        }
        Ok(returned)
    }

    /// Fetches a persisted session token by identifier.
    pub fn get_auth_token(&self, token_id: i64) -> (r: Result<AuthToken, GetAuthTokenError>)
        ensures
            match r {
                Ok(t) => token_by_id(self@.tokens, token_id as int) == Some(t@),
                Err(GetAuthTokenError::AuthTokenNotFound) => token_by_id(
                    self@.tokens,
                    token_id as int,
                ) is None,
                Err(GetAuthTokenError::OtherDbError(_)) => false,
            },
    {
        let n = self.tokens.len();
        let mut k: usize = 0;
        proof {
            assert(self@.tokens.skip(0) =~= self@.tokens);
        }
        while k < n
            invariant
                k <= n,
                n == self@.tokens.len(),
                n == self.tokens@.len(),
                token_by_id(self@.tokens, token_id as int) == token_by_id(
                    self@.tokens.skip(k as int),
                    token_id as int,
                ),
            decreases n - k,
        {
            let ghost pre = self@.tokens.skip(k as int);
            proof {
                assert(pre.len() > 0 && pre[0] == self@.tokens[k as int]);
                assert(pre.skip(1) =~= self@.tokens.skip(k + 1));
            }
            let t = &self.tokens[k];
            if t.id == token_id {
                let found = AuthToken {
                    id: t.id,
                    user_id: t.user_id,
                    token: slice_to_vec(t.token.as_slice()),
                    date_created: t.date_created,
                    date_expired: t.date_expired,
                    token_type: t.token_type.clone(),
                };
                return Ok(found);
            }
            k = k + 1;
        }
        proof {
            assert(self@.tokens.skip(n as int) =~= Seq::<SpecAuthToken>::empty());
        }
        Err(GetAuthTokenError::AuthTokenNotFound)
    }

    /// Appends one audit record; the log is append-only.
    pub fn create_auth_log(&mut self, new_log: &NewAuthLog<'_>) -> (r: Result<
        AuthLog,
        CreateAuthLogError,
    >)
        requires
            old(self)@.wf(),
        ensures
            final(self)@.wf(),
            final(self)@.users == old(self)@.users,
            final(self)@.tokens == old(self)@.tokens,
            final(self)@.next_token_id == old(self)@.next_token_id,
            match r {
                Ok(l) => {
                    &&& old(self)@.auth_log.len() < STORE_CAPACITY
                    &&& final(self)@.auth_log == old(self)@.auth_log.push(l@)
                    &&& l@.id == old(self)@.auth_log.len() + 1
                    &&& l@.email == new_log.email@
                    &&& l@.success == new_log.success
                    &&& l@.ip_address == new_log.ip_address@
                    &&& l@.user_agent == new_log.user_agent@
                    &&& l@.date_created == new_log.date_created
                },
                Err(CreateAuthLogError::OtherDbError(_)) => old(self)@.auth_log.len()
                    >= STORE_CAPACITY && final(self)@ == old(self)@,
            },
    {
        if self.auth_log.len() >= STORE_CAPACITY {
            return Err(CreateAuthLogError::OtherDbError(StoreFailure::IdSpaceExhausted));
        }
        let id = (self.auth_log.len() + 1) as i64;
        let stored = AuthLog {
            id,
            email: String::from_str(new_log.email),
            success: new_log.success,
            ip_address: String::from_str(new_log.ip_address),
            user_agent: String::from_str(new_log.user_agent),
            date_created: new_log.date_created,
        };
        let returned = AuthLog {
            id,
            email: String::from_str(new_log.email),
            success: new_log.success,
            ip_address: String::from_str(new_log.ip_address),
            user_agent: String::from_str(new_log.user_agent),
            date_created: new_log.date_created,
        };
        self.auth_log.push(stored);
        proof {
            assert(self@.auth_log =~= old(self)@.auth_log.push(returned@));
            assert(self@.users =~= old(self)@.users);
            assert(self@.tokens =~= old(self)@.tokens);
        }
        Ok(returned)
    }

    /// Deletes a persisted session token: the revocation primitive. Returns
    /// whether a token with that identifier existed.
    pub fn delete_auth_token(&mut self, token_id: i64) -> (found: bool)
        requires
            old(self)@.wf(),
        ensures
            final(self)@.wf(),
            final(self)@.users == old(self)@.users,
            final(self)@.auth_log == old(self)@.auth_log,
            final(self)@.next_token_id == old(self)@.next_token_id,
            found == (token_by_id(old(self)@.tokens, token_id as int) is Some),
            !found ==> final(self)@ == old(self)@,
            token_by_id(final(self)@.tokens, token_id as int) is None,
            forall|other: int|
                other != token_id ==> #[trigger] token_by_id(final(self)@.tokens, other)
                    == token_by_id(old(self)@.tokens, other),
    {
        let n = self.tokens.len();
        let mut k: usize = 0;
        proof {
            assert(self@.tokens.skip(0) =~= self@.tokens);
        }
        while k < n
            invariant
                k <= n,
                n == self@.tokens.len(),
                n == self.tokens@.len(),
                old(self)@ == self@,
                self@.wf(),
                forall|q: int| 0 <= q < k ==> (#[trigger] self@.tokens[q]).id != token_id,
                token_by_id(self@.tokens, token_id as int) == token_by_id(
                    self@.tokens.skip(k as int),
                    token_id as int,
                ),
            decreases n - k,
        {
            let ghost pre = self@.tokens.skip(k as int);
            proof {
                assert(pre.len() > 0 && pre[0] == self@.tokens[k as int]);
                assert(pre.skip(1) =~= self@.tokens.skip(k + 1));
            }
            if self.tokens[k].id == token_id {
                let ghost before = self@.tokens;
                self.tokens.remove(k);
                proof {
                    assert(self@.tokens =~= before.subrange(0, k as int) + before.subrange(
                        k + 1,
                        before.len() as int,
                    ));
                    lemma_token_by_id_absent(self@.tokens, token_id as int, before, k as int);
                    assert forall|other: int| other != token_id implies #[trigger] token_by_id(
                        self@.tokens,
                        other,
                    ) == token_by_id(before, other) by {
                        lemma_token_by_id_skip_one(before, k as int, other);
                    }
                }
                return true;
            }
            k = k + 1;
        }
        proof {
            assert(self@.tokens.skip(n as int) =~= Seq::<SpecAuthToken>::empty());
        }
        false
    }
}

/// Removing the position holding `id` from a sequence of strictly increasing
/// identifiers leaves no token with `id`.
proof fn lemma_token_by_id_absent(
    after: Seq<SpecAuthToken>,
    id: int,
    before: Seq<SpecAuthToken>,
    k: int,
)
    requires
        0 <= k < before.len(),
        before[k].id == id,
        forall|i: int, j: int| 0 <= i < j < before.len() ==> before[i].id < before[j].id,
        after == before.subrange(0, k) + before.subrange(k + 1, before.len() as int),
    ensures
        token_by_id(after, id) is None,
{
    assert forall|i: int| 0 <= i < after.len() implies (#[trigger] after[i]).id != id by {
        if i < k {
            assert(after[i] == before[i]);
        } else {
            assert(after[i] == before[i + 1]);
        }
    }
    lemma_token_by_id(after, id);
}

/// Removing one position does not change lookups of other identifiers,
/// when identifiers are strictly increasing.
proof fn lemma_token_by_id_skip_one(before: Seq<SpecAuthToken>, k: int, other: int)
    requires
        0 <= k < before.len(),
        forall|i: int, j: int| 0 <= i < j < before.len() ==> before[i].id < before[j].id,
        other != before[k].id,
    ensures
        token_by_id(before.subrange(0, k) + before.subrange(k + 1, before.len() as int), other)
            == token_by_id(before, other),
{
    let after = before.subrange(0, k) + before.subrange(k + 1, before.len() as int);
    lemma_token_by_id(before, other);
    lemma_token_by_id(after, other);
    if token_by_id(before, other) is Some {
        let i = choose|i: int|
            0 <= i < before.len() && #[trigger] before[i] == token_by_id(before, other).unwrap()
                && before[i].id == other;
        let i2 = if i < k {
            i
        } else {
            i - 1
        };
        assert(after[i2] == before[i]);
        lemma_token_by_id_unique(after, other);
        lemma_token_by_id_unique(before, other);
        let j = choose|j: int|
            0 <= j < after.len() && #[trigger] after[j] == token_by_id(after, other).unwrap()
                && after[j].id == other;
        let jb = if j < k {
            j
        } else {
            j + 1
        };
        assert(before[jb] == after[j]);
        assert(before[jb].id == other && before[i].id == other);
        assert(jb == i);
    } else {
        if token_by_id(after, other) is Some {
            let j = choose|j: int|
                0 <= j < after.len() && #[trigger] after[j] == token_by_id(after, other).unwrap()
                    && after[j].id == other;
            let jb = if j < k {
                j
            } else {
                j + 1
            };
            assert(before[jb] == after[j]);
            assert(before[jb].id == other);
            assert(false);
        }
    }
}

/// With pairwise distinct identifiers, two positions holding `id` coincide.
proof fn lemma_token_by_id_unique(tokens: Seq<SpecAuthToken>, id: int)
    requires
        forall|i: int, j: int| 0 <= i < j < tokens.len() ==> tokens[i].id < tokens[j].id,
    ensures
        forall|i: int, j: int|
            0 <= i < tokens.len() && 0 <= j < tokens.len() && (#[trigger] tokens[i]).id == id
                && (#[trigger] tokens[j]).id == id ==> i == j,
{
}

} // verus!
