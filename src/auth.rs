//! Token sessions: the credential list, one live token per user, and the
//! login / verify / logout operations over them.

use vstd::prelude::*;
use rand::Rng;
use crate::text::{chars_of, lines_spec, split_chars, split_lines, split_spec, string_from_chars, views};

verus! {

/// A username and password pair of the credential list.
pub struct User {
    pub username: String,
    pub password: String,
}

impl View for User {
    type V = (Seq<char>, Seq<char>);

    open spec fn view(&self) -> (Seq<char>, Seq<char>) {
        (self.username@, self.password@)
    }
}

#[derive(Debug, Clone, Copy, PartialEq, Eq, Structural)]
pub enum AuthError {
    /// No credential matches both the username and the password.
    InvalidCredentials,
    /// The credential list is empty.
    CredentialStoreUnavailable,
}

/// A line of the credential list read as a credential: exactly two
/// comma-separated fields. Blank and other lines give none.
pub open spec fn credential_spec(line: Seq<char>) -> Option<(Seq<char>, Seq<char>)> {
    let f = split_spec(line, ',');
    if f.len() == 2 {
        Some((f[0], f[1]))
    } else {
        None
    }
}

/// The credentials of the well-formed lines, in order.
pub open spec fn credentials_spec(lines: Seq<Seq<char>>) -> Seq<(Seq<char>, Seq<char>)>
    decreases lines.len(),
{
    if lines.len() == 0 {
        Seq::empty()
    } else {
        let prev = credentials_spec(lines.drop_last());
        match credential_spec(lines.last()) {
            Some(c) => prev.push(c),
            None => prev,
        }
    }
}

pub open spec fn user_views(users: Seq<User>) -> Seq<(Seq<char>, Seq<char>)> {
    users.map_values(|u: User| u@)
}

/// Reads the credential list: one `username,password` record per line; blank
/// and malformed lines are skipped.
pub fn parse_credentials(text: &str) -> (r: Vec<User>)
    ensures
        user_views(r@) == credentials_spec(lines_spec(text@)),
{
    let cs = chars_of(text);
    let lines = split_lines(&cs);
    let mut users: Vec<User> = Vec::new();
    for i in 0..lines.len()
        invariant
            views(lines@) == lines_spec(text@),
            user_views(users@) == credentials_spec(lines_spec(text@).subrange(0, i as int)),
    {
        let ghost pre = lines_spec(text@).subrange(0, i + 1);
        assert(pre.drop_last() =~= lines_spec(text@).subrange(0, i as int));
        assert(pre.last() == lines@[i as int]@);
        let ghost before = user_views(users@);
        let f = split_chars(&lines[i], ',');
        if f.len() == 2 {
            assert(views(f@)[0] == f@[0]@);
            assert(views(f@)[1] == f@[1]@);
            let u = User { username: string_from_chars(&f[0]), password: string_from_chars(&f[1]) };
            users.push(u);
            assert(user_views(users@) =~= before.push((f@[0]@, f@[1]@)));
        }
    }
    assert(lines_spec(text@).subrange(0, lines@.len() as int) =~= lines_spec(text@));
    users
}

/// Some credential holds exactly this username and this password.
pub open spec fn credentials_match(users: Seq<User>, username: Seq<char>, password: Seq<char>) -> bool {
    exists|i: int| 0 <= i < users.len() && (#[trigger] users[i])@ == (username, password)
}

/// The live token of a user.
pub struct TokenRecord {
    pub username: String,
    pub token: String,
}

/// The username to token map that a sequence of records stands for; a later
/// record for a username replaces an earlier one.
pub open spec fn records_map(s: Seq<TokenRecord>) -> Map<Seq<char>, Seq<char>>
    decreases s.len(),
{
    if s.len() == 0 {
        Map::empty()
    } else {
        records_map(s.drop_last()).insert(s.last().username@, s.last().token@)
    }
}

/// At most one live token for each username.
pub struct TokenStore {
    records: Vec<TokenRecord>,
}

impl View for TokenStore {
    type V = Map<Seq<char>, Seq<char>>;

    closed spec fn view(&self) -> Map<Seq<char>, Seq<char>> {
        records_map(self.records@)
    }
}

/// `token` is the live token of `username`.
pub open spec fn token_valid(tokens: Map<Seq<char>, Seq<char>>, username: Seq<char>, token: Seq<char>) -> bool {
    tokens.contains_key(username) && tokens[username] == token
}

impl TokenStore {
    pub fn new() -> (r: TokenStore)
        ensures
            r@ == Map::<Seq<char>, Seq<char>>::empty(),
    {
        TokenStore { records: Vec::new() }
    }

    /// Whether `token` is byte for byte the live token of `username`.
    pub fn verify(&self, username: &str, token: &str) -> (r: bool)
        ensures
            r == token_valid(self@, username@, token@),
    {
        let u = username.to_owned();
        let t = token.to_owned();
        let mut j = self.records.len();
        assert(self.records@.subrange(0, j as int) =~= self.records@);
        while j > 0
            invariant
                j <= self.records@.len(),
                u@ == username@,
                t@ == token@,
                records_map(self.records@).contains_key(u@) == records_map(
                    self.records@.subrange(0, j as int),
                ).contains_key(u@),
                records_map(self.records@).contains_key(u@) ==> records_map(self.records@)[u@]
                    == records_map(self.records@.subrange(0, j as int))[u@],
            decreases j,
        {
            let ghost pre = self.records@.subrange(0, j as int);
            assert(pre.drop_last() =~= self.records@.subrange(0, j - 1));
            if self.records[j - 1].username == u {
                return self.records[j - 1].token == t;
            }
            j = j - 1;
        }
        false
    }

    /// Removes the live token of `username`, if there is one.
    pub fn revoke(&mut self, username: &str)
        ensures
            final(self)@ == old(self)@.remove(username@),
    {
        let u = username.to_owned();
        let mut kept: Vec<TokenRecord> = Vec::new();
        let n = self.records.len();
        for i in 0..n
            invariant
                n == self.records@.len(),
                u@ == username@,
                records_map(kept@) == records_map(self.records@.subrange(0, i as int)).remove(u@),
        {
            let ghost pre = self.records@.subrange(0, i + 1);
            assert(pre.drop_last() =~= self.records@.subrange(0, i as int));
            let ghost before = kept@;
            if self.records[i].username != u {
                let r = TokenRecord {
                    username: self.records[i].username.clone(),
                    token: self.records[i].token.clone(),
                };
                kept.push(r);
                assert(kept@.drop_last() =~= before);
                assert(records_map(kept@) =~= records_map(pre).remove(u@));
            } else {
                assert(records_map(kept@) =~= records_map(pre).remove(u@));
            }
        }
        assert(self.records@.subrange(0, n as int) =~= self.records@);
        self.records = kept;
    }

    /// Makes `token` the one live token of `username`, replacing any earlier one.
    pub fn issue(&mut self, username: &str, token: String)
        ensures
            final(self)@ == old(self)@.insert(username@, token@),
    {
        self.revoke(username);
        let ghost before = self.records@;
        self.records.push(TokenRecord { username: username.to_owned(), token });
        assert(self.records@.drop_last() =~= before);
        assert(self@ =~= old(self)@.insert(username@, token@));
    }
}

/// After the session of a user ends, no token of that user verifies, the one
/// that was live included.
pub proof fn lemma_logout_then_verify_fails(
    tokens: Map<Seq<char>, Seq<char>>,
    username: Seq<char>,
    token: Seq<char>,
)
    ensures
        !token_valid(tokens.remove(username), username, token),
{
}

/// A second login of a user replaces the first session: the token of the
/// first login no longer verifies (unless both logins drew the same token).
pub proof fn lemma_second_login_replaces_first(
    tokens: Map<Seq<char>, Seq<char>>,
    username: Seq<char>,
    first: Seq<char>,
    second: Seq<char>,
)
    requires
        first != second,
    ensures
        token_valid(tokens.insert(username, first), username, first),
        !token_valid(tokens.insert(username, first).insert(username, second), username, first),
        token_valid(tokens.insert(username, first).insert(username, second), username, second),
{
}

/// A character of a token: an ASCII letter or digit.
pub open spec fn is_token_char(c: char) -> bool {
    ('A' <= c && c <= 'Z') || ('a' <= c && c <= 'z') || ('0' <= c && c <= '9')
}

/// The `i`-th character of the token alphabet `A-Z a-z 0-9`.
fn token_char(i: u8) -> (c: char)
    requires
        i < 62,
    ensures
        is_token_char(c),
{
    if i < 26 {
        (65u8 + i) as char
    } else if i < 52 {
        (97u8 + (i - 26)) as char
    } else {
        (48u8 + (i - 52)) as char
    }
}

/// Relies on rand's `Rng::gen_range` on `thread_rng()`: a value drawn from
/// `0..n`; it panics on an empty range.
#[verifier::external_body]
fn random_below(n: u8) -> (r: u8)
    requires
        n > 0,
    ensures
        r < n,
{
    rand::thread_rng().gen_range(0..n)
}

/// A random string of `length` characters drawn from the letters and digits.
pub fn generate_random_string(length: usize) -> (r: String)
    ensures
        r@.len() == length,
        forall|i: int| 0 <= i < length ==> is_token_char(#[trigger] r@[i]),
{
    let mut cs: Vec<char> = Vec::new();
    for k in 0..length
        invariant
            cs@.len() == k,
            forall|i: int| 0 <= i < k ==> is_token_char(#[trigger] cs@[i]),
    {
        let c = token_char(random_below(62));
        cs.push(c);
    }
    string_from_chars(&cs)
}

/// The length of the tokens handed out at login.
pub const TOKEN_LENGTH: usize = 32;

/// Logs users in against a credential list and keeps their live tokens.
pub struct Authenticator {
    pub credentials: Vec<User>,
    pub tokens: TokenStore,
}

impl Authenticator {
    pub fn new(credentials: Vec<User>) -> (r: Authenticator)
        ensures
            r.credentials@ == credentials@,
            r.tokens@ == Map::<Seq<char>, Seq<char>>::empty(),
    {
        Authenticator { credentials, tokens: TokenStore::new() }
    }

    fn find_credential(&self, username: &str, password: &str) -> (r: bool)
        ensures
            r == credentials_match(self.credentials@, username@, password@),
    {
        let u = username.to_owned();
        let p = password.to_owned();
        let n = self.credentials.len();
        for i in 0..n
            invariant
                n == self.credentials@.len(),
                u@ == username@,
                p@ == password@,
                forall|k: int| 0 <= k < i ==> (#[trigger] self.credentials@[k])@ != (username@, password@),
        {
            if self.credentials[i].username == u && self.credentials[i].password == p {
                return true;
            }
        }
        false
    }

    /// Logs in with `token` as the new session token. With an empty credential
    /// list this fails with `CredentialStoreUnavailable`; when no credential
    /// matches both fields, with `InvalidCredentials`. On success `token`
    /// becomes the one live token of `username` and is returned.
    pub fn login_with_token(&mut self, username: &str, password: &str, token: String) -> (r: Result<String, AuthError>)
        ensures
            final(self).credentials@ == old(self).credentials@,
            old(self).credentials@.len() == 0 ==> r == Err::<String, AuthError>(AuthError::CredentialStoreUnavailable)
                && final(self).tokens@ == old(self).tokens@,
            old(self).credentials@.len() > 0 && !credentials_match(old(self).credentials@, username@, password@)
                ==> r == Err::<String, AuthError>(AuthError::InvalidCredentials)
                && final(self).tokens@ == old(self).tokens@,
            old(self).credentials@.len() > 0 && credentials_match(old(self).credentials@, username@, password@)
                ==> (r matches Ok(t) && t@ == token@
                && final(self).tokens@ == old(self).tokens@.insert(username@, token@)),
    {
        if self.credentials.len() == 0 {
            return Err(AuthError::CredentialStoreUnavailable);
        }
        if !self.find_credential(username, password) {
            return Err(AuthError::InvalidCredentials);
        }
        let t = token.clone();
        self.tokens.issue(username, token);
        Ok(t)
    }

    /// Logs in: on matching credentials a fresh random token of
    /// [`TOKEN_LENGTH`] letters and digits becomes the one live token of
    /// `username` and is returned. Fails as [`Authenticator::login_with_token`] does.
    pub fn login(&mut self, username: &str, password: &str) -> (r: Result<String, AuthError>)
        ensures
            final(self).credentials@ == old(self).credentials@,
            old(self).credentials@.len() == 0 ==> r == Err::<String, AuthError>(AuthError::CredentialStoreUnavailable)
                && final(self).tokens@ == old(self).tokens@,
            old(self).credentials@.len() > 0 && !credentials_match(old(self).credentials@, username@, password@)
                ==> r == Err::<String, AuthError>(AuthError::InvalidCredentials)
                && final(self).tokens@ == old(self).tokens@,
            old(self).credentials@.len() > 0 && credentials_match(old(self).credentials@, username@, password@)
                ==> (r matches Ok(t) && t@.len() == TOKEN_LENGTH
                && (forall|i: int| 0 <= i < t@.len() ==> is_token_char(#[trigger] t@[i]))
                && final(self).tokens@ == old(self).tokens@.insert(username@, t@)),
    {
        let token = generate_random_string(TOKEN_LENGTH);
        self.login_with_token(username, password, token)
    }

    /// Whether `token` is the live token of `username`.
    pub fn verify(&self, username: &str, token: &str) -> (r: bool)
        ensures
            r == token_valid(self.tokens@, username@, token@),
    {
        self.tokens.verify(username, token)
    }

    /// Ends the session of `username`; nothing to do when there is none.
    pub fn logout(&mut self, username: &str)
        ensures
            final(self).credentials@ == old(self).credentials@,
            final(self).tokens@ == old(self).tokens@.remove(username@),
    {
        self.tokens.revoke(username);
    }
}

} // verus!
