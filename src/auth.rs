//! Credentials and sessions: password hashing and checking, user-name
//! validation, and the session table with its rotation and expiry.

use vstd::prelude::*;

use crate::data::{Timestamp, now};
use crate::db::{DB, DBView, StoreOpView, empty_user};
use crate::idgen::{gen_id, is_alphanumeric, is_random_id, no_key_shaped, random_alphanumeric};
use crate::ids::{SessionID, UserID};
use crate::table::{Table, lemma_not_in_prefix};

verus! {

broadcast use vstd::seq_lib::lemma_seq_contains_after_push;

/// Length of a password salt.
pub const SALT_LEN: usize = 16;

/// Length of a session identifier.
pub const SESSION_ID_LEN: usize = 128;

/// What a user name must match: one or more ASCII letters, digits, `_` or `-`.
pub const USER_NAME_PATTERN: &'static str = "^[a-zA-Z0-9_-]+$";

/// A stored credential: a random salt and the hexadecimal SHA-256 digest of
/// the password followed by the salt.
#[derive(Debug)]
pub struct PasswordStore {
    pub salt: String,
    pub hashed: String,
}

pub ghost struct PasswordView {
    pub salt: Seq<char>,
    pub hashed: Seq<char>,
}

impl View for PasswordStore {
    type V = PasswordView;

    open spec fn view(&self) -> PasswordView {
        PasswordView { salt: self.salt@, hashed: self.hashed@ }
    }
}

impl Clone for PasswordStore {
    fn clone(&self) -> (r: Self)
        ensures
            r == *self,
    {
        PasswordStore { salt: self.salt.clone(), hashed: self.hashed.clone() }
    }
}

/// The SHA-256 digest of the UTF-8 encoding of the text.
pub uninterp spec fn sha256_of(text: Seq<char>) -> Seq<u8>;

/// Whether the regular expression `pattern` compiles and matches somewhere
/// in `text`.
pub uninterp spec fn regex_matches(pattern: Seq<char>, text: Seq<char>) -> bool;

/// Relies on sha2's `Sha256` through `Digest::digest`: the SHA-256 digest of
/// the text's UTF-8 bytes.
#[verifier::external_body]
fn sha256(text: &str) -> (r: Vec<u8>)
    ensures
        r@ == sha256_of(text@),
        r@.len() == 32,
{
    <sha2::Sha256 as sha2::Digest>::digest(text.as_bytes()).to_vec()
}

/// A character a user name may hold: an ASCII letter or digit, `_` or `-`.
pub open spec fn is_user_name_char(c: char) -> bool {
    is_alphanumeric(c) || c == '_' || c == '-'
}

/// The text consists of one or more characters a user name may hold.
pub open spec fn is_user_name_text(s: Seq<char>) -> bool {
    s.len() > 0 && forall|i: int| 0 <= i < s.len() ==> is_user_name_char(#[trigger] s[i])
}

/// Relies on regex's `Regex::new` and `Regex::is_match`: whether the pattern
/// compiles and matches somewhere in the text. For the user-name pattern,
/// anchored at both ends, that is: the whole text is one or more ASCII
/// letters, digits, `_` or `-`.
#[verifier::external_body]
fn regex_is_match(pattern: &str, text: &str) -> (r: bool)
    ensures
        r == regex_matches(pattern@, text@),
        pattern@ == USER_NAME_PATTERN@ ==> (r == is_user_name_text(text@)),
{
    match regex::Regex::new(pattern) {
        Ok(re) => re.is_match(text),
        Err(_) => false,
    }
}

/// The lower-case hexadecimal digit of `d`.
pub open spec fn hex_digit(d: u8) -> char {
    if d == 0 {
        '0'
    } else if d == 1 {
        '1'
    } else if d == 2 {
        '2'
    } else if d == 3 {
        '3'
    } else if d == 4 {
        '4'
    } else if d == 5 {
        '5'
    } else if d == 6 {
        '6'
    } else if d == 7 {
        '7'
    } else if d == 8 {
        '8'
    } else if d == 9 {
        '9'
    } else if d == 10 {
        'a'
    } else if d == 11 {
        'b'
    } else if d == 12 {
        'c'
    } else if d == 13 {
        'd'
    } else if d == 14 {
        'e'
    } else {
        'f'
    }
}

/// Each byte as two lower-case hexadecimal digits, high digit first.
pub open spec fn hex_of(b: Seq<u8>) -> Seq<char>
    decreases b.len(),
{
    if b.len() == 0 {
        Seq::empty()
    } else {
        hex_of(b.drop_last()) + seq![hex_digit(b.last() / 16), hex_digit(b.last() % 16)]
    }
}

/// Hexadecimal takes two digits per byte.
pub proof fn lemma_hex_len(b: Seq<u8>)
    ensures
        hex_of(b).len() == 2 * b.len(),
    decreases b.len(),
{
    if b.len() > 0 {
        lemma_hex_len(b.drop_last());
    }
}

fn hex_digit_str(d: u8) -> (r: &'static str)
    requires
        d < 16,
    ensures
        r@ == seq![hex_digit(d)],
{
    if d == 0 {
        proof {
            reveal_strlit("0");
        }
        "0"
    } else if d == 1 {
        proof {
            reveal_strlit("1");
        }
        "1"
    } else if d == 2 {
        proof {
            reveal_strlit("2");
        }
        "2"
    } else if d == 3 {
        proof {
            reveal_strlit("3");
        }
        "3"
    } else if d == 4 {
        proof {
            reveal_strlit("4");
        }
        "4"
    } else if d == 5 {
        proof {
            reveal_strlit("5");
        }
        "5"
    } else if d == 6 {
        proof {
            reveal_strlit("6");
        }
        "6"
    } else if d == 7 {
        proof {
            reveal_strlit("7");
        }
        "7"
    } else if d == 8 {
        proof {
            reveal_strlit("8");
        }
        "8"
    } else if d == 9 {
        proof {
            reveal_strlit("9");
        }
        "9"
    } else if d == 10 {
        proof {
            reveal_strlit("a");
        }
        "a"
    } else if d == 11 {
        proof {
            reveal_strlit("b");
        }
        "b"
    } else if d == 12 {
        proof {
            reveal_strlit("c");
        }
        "c"
    } else if d == 13 {
        proof {
            reveal_strlit("d");
        }
        "d"
    } else if d == 14 {
        proof {
            reveal_strlit("e");
        }
        "e"
    } else {
        proof {
            reveal_strlit("f");
        }
        "f"
    }
}

/// The bytes in lower-case hexadecimal.
pub fn to_hex(b: &Vec<u8>) -> (r: String)
    ensures
        r@ == hex_of(b@),
{
    let mut out = String::new();
    let mut i: usize = 0;
    while i < b.len()
        invariant
            i <= b@.len(),
            out@ == hex_of(b@.take(i as int)),
        decreases b@.len() - i,
    {
        let byte: u8 = b[i];
        proof {
            assert(b@.take(i + 1).drop_last() =~= b@.take(i as int));
        }
        out.append(hex_digit_str(byte / 16));
        out.append(hex_digit_str(byte % 16));
        i = i + 1;
    }
    assert(b@.take(b@.len() as int) =~= b@);
    out
}

/// The stored digest of `password` under `salt`.
pub open spec fn password_hash(password: Seq<char>, salt: Seq<char>) -> Seq<char> {
    hex_of(sha256_of(password + salt))
}

/// The credential `store` accepts `password`.
pub open spec fn verifies(password: Seq<char>, store: PasswordView) -> bool {
    password_hash(password, store.salt) == store.hashed
}

/// `name` is a well-formed user name.
pub open spec fn valid_user_name(name: Seq<char>) -> bool {
    is_user_name_text(name)
}

/// A login with this name and password succeeds against the stored
/// credential: the name is well formed and the credential exists and
/// accepts the password.
pub open spec fn login_accepts(name: Seq<char>, password: Seq<char>, stored: Option<PasswordView>) -> bool {
    &&& valid_user_name(name)
    &&& stored is Some
    &&& verifies(password, stored->0)
}

/// Whether `name` is a well-formed user name.
pub fn is_valid_user_name(name: &str) -> (r: bool)
    ensures
        r == valid_user_name(name@),
{
    regex_is_match(USER_NAME_PATTERN, name)
}

/// The digest stored for `password` under `salt`.
pub fn hash_password(password: &str, salt: &str) -> (r: String)
    ensures
        r@ == password_hash(password@, salt@),
        r@.len() == 64,
{
    let salted = password.to_owned().concat(salt);
    let digest = sha256(salted.as_str());
    proof {
        lemma_hex_len(digest@);
    }
    to_hex(&digest)
}

/// Whether the stored credential accepts `password`.
pub fn match_password(password: &str, store: &PasswordStore) -> (r: bool)
    ensures
        r == verifies(password@, store@),
{
    hash_password(password, store.salt.as_str()) == store.hashed
}

/// A fresh credential for `password`, under a newly drawn salt.
pub fn secure_password(password: &str) -> (r: PasswordStore)
    ensures
        is_random_id(r.salt@, SALT_LEN as nat),
        verifies(password@, r@),
        r.hashed@.len() == 64,
{
    let salt = random_alphanumeric(SALT_LEN);
    let hashed = hash_password(password, salt.as_str());
    PasswordStore { salt, hashed }
}

/// A credential renewed after a successful login still accepts the
/// password: logging in again with the same name and password succeeds
/// against the record that the first login stored.
pub proof fn lemma_login_again(
    name: Seq<char>,
    password: Seq<char>,
    stored: PasswordView,
    renewed: PasswordView,
)
    requires
        login_accepts(name, password, Some(stored)),
        verifies(password, renewed),
    ensures
        login_accepts(name, password, Some(renewed)),
{
}

#[derive(Debug, PartialEq, Eq, Structural)]
pub enum LoginError {
    WrongCredentials,
    InvalidUserName,
    /// No fresh session identifier could be drawn.
    SessionUnavailable,
}

impl LoginError {
    /// The message shown to the user.
    pub fn message(&self) -> &'static str {
        match self {
            LoginError::WrongCredentials => "Wrong credentials",
            LoginError::InvalidUserName =>
                "Invalid user name. Only alphanumeric characters, '_' & '-' are allowed",
            LoginError::SessionUnavailable => "No session could be started",
        }
    }
}

#[derive(Debug, PartialEq, Eq, Structural)]
pub enum SignupError {
    AlreadyExists,
    InvalidUserName,
}

impl SignupError {
    /// The message shown to the user.
    pub fn message(&self) -> &'static str {
        match self {
            SignupError::AlreadyExists => "User with such name already exists",
            SignupError::InvalidUserName =>
                "Invalid user name. Only alphanumeric characters, '_' & '-' are allowed",
        }
    }
}

#[derive(Debug, PartialEq, Eq, Structural)]
pub enum SessionRequestError {
    NoSession,
}

impl SessionRequestError {
    /// The message shown to the user.
    pub fn message(&self) -> &'static str {
        "No Session"
    }
}

/// An authenticated request: the user and the session identifier it now
/// holds.
#[derive(Debug)]
pub struct UserSession {
    pub user: UserID,
    pub session_id: SessionID,
}

/// The session manager: each live session's user and last use.
pub struct Auth {
    sessions: Table<(UserID, Timestamp)>,
}

/// The sessions after `old_id` was replaced by `new_id`, used at `at`.
pub open spec fn rotated(
    sessions: Map<Seq<char>, (Seq<char>, Timestamp)>,
    old_id: Seq<char>,
    new_id: Seq<char>,
    at: Timestamp,
) -> Map<Seq<char>, (Seq<char>, Timestamp)> {
    sessions.remove(old_id).insert(new_id, (sessions[old_id].0, at))
}

/// The session last used at `last` has been idle for more than `max_age`
/// milliseconds at `now`.
pub open spec fn expired(now: Timestamp, last: Timestamp, max_age: i64) -> bool {
    now.millis - last.millis > max_age
}

impl View for Auth {
    type V = Map<Seq<char>, (Seq<char>, Timestamp)>;

    closed spec fn view(&self) -> Map<Seq<char>, (Seq<char>, Timestamp)> {
        self.sessions@.map_values(|s: (UserID, Timestamp)| (s.0@, s.1))
    }
}

/// Rotating a session retires the old identifier and hands its user to a new,
/// different one: afterwards the old identifier finds no session and the new
/// one finds the same user.
pub proof fn lemma_rotation(
    sessions: Map<Seq<char>, (Seq<char>, Timestamp)>,
    old_id: Seq<char>,
    new_id: Seq<char>,
    at: Timestamp,
)
    requires
        sessions.contains_key(old_id),
        !sessions.contains_key(new_id),
    ensures
        new_id != old_id,
        !rotated(sessions, old_id, new_id, at).contains_key(old_id),
        rotated(sessions, old_id, new_id, at).contains_key(new_id),
        rotated(sessions, old_id, new_id, at)[new_id].0 == sessions[old_id].0,
{
}

/// At most one key of the map has the shape of a drawn identifier of `len`
/// characters.
pub open spec fn at_most_one_shaped<V>(m: Map<Seq<char>, V>, len: nat) -> bool {
    forall|a: Seq<char>, b: Seq<char>|
        #[trigger] m.contains_key(a) && #[trigger] m.contains_key(b) && is_random_id(a, len)
            && is_random_id(b, len) ==> a == b
}

/// The identifier `s` with its first character replaced by another letter:
/// different from `s`, and of the same shape.
fn other_id(s: &String) -> (r: String)
    requires
        s@.len() > 0,
        is_random_id(s@, s@.len()),
    ensures
        r@ != s@,
        is_random_id(r@, s@.len()),
{
    let n: usize = s.as_str().unicode_len();
    let rest = s.as_str().substring_char(1, n);
    let head = if s.as_str().get_char(0) == 'a' {
        proof {
            reveal_strlit("b");
        }
        "b"
    } else {
        proof {
            reveal_strlit("a");
        }
        "a"
    };
    let r = head.to_owned().concat(rest);
    assert(r@[0] != s@[0]);
    assert forall|i: int| 0 <= i < r@.len() implies is_alphanumeric(#[trigger] r@[i]) by {
        if i > 0 {
            assert(r@[i] == s@[i]);
        }
    }
    r
}

/// If no live identifier but the looked-up one has the drawn shape, a
/// rotation keeps it so: the next lookup with the new identifier is owed
/// success too, and so on for every later lookup.
pub proof fn lemma_rotation_keeps_lookup_owed(
    sessions: Map<Seq<char>, (Seq<char>, Timestamp)>,
    old_id: Seq<char>,
    new_id: Seq<char>,
    at: Timestamp,
)
    requires
        sessions.contains_key(old_id),
        !sessions.contains_key(new_id),
        no_key_shaped(sessions.remove(old_id), SESSION_ID_LEN as nat),
    ensures
        rotated(sessions, old_id, new_id, at).contains_key(new_id),
        at_most_one_shaped(rotated(sessions, old_id, new_id, at), SESSION_ID_LEN as nat),
        no_key_shaped(rotated(sessions, old_id, new_id, at).remove(new_id), SESSION_ID_LEN as nat),
{
    let m = rotated(sessions, old_id, new_id, at);
    assert(m.remove(new_id) =~= sessions.remove(old_id));
    assert forall|a: Seq<char>, b: Seq<char>|
        #[trigger] m.contains_key(a) && #[trigger] m.contains_key(b) && is_random_id(
            a,
            SESSION_ID_LEN as nat,
        ) && is_random_id(b, SESSION_ID_LEN as nat) implies a == b by {
        if a != new_id {
            assert(sessions.remove(old_id).contains_key(a));
        }
        if b != new_id {
            assert(sessions.remove(old_id).contains_key(b));
        }
    }
}

/// A session table in which no identifier has the drawn shape gains at most
/// one such identifier from a login, so a second login is owed success too.
pub proof fn lemma_login_keeps_login_owed(
    sessions: Map<Seq<char>, (Seq<char>, Timestamp)>,
    new_id: Seq<char>,
    entry: (Seq<char>, Timestamp),
)
    requires
        no_key_shaped(sessions, SESSION_ID_LEN as nat),
    ensures
        at_most_one_shaped(sessions.insert(new_id, entry), SESSION_ID_LEN as nat),
{
    let m = sessions.insert(new_id, entry);
    assert forall|a: Seq<char>, b: Seq<char>|
        #[trigger] m.contains_key(a) && #[trigger] m.contains_key(b) && is_random_id(
            a,
            SESSION_ID_LEN as nat,
        ) && is_random_id(b, SESSION_ID_LEN as nat) implies a == b by {
        if a != new_id {
            assert(sessions.contains_key(a));
        }
        if b != new_id {
            assert(sessions.contains_key(b));
        }
    }
}

impl Auth {
    pub closed spec fn wf(&self) -> bool {
        self.sessions.wf()
    }

    /// No sessions.
    pub fn init() -> (r: Self)
        ensures
            r.wf(),
            r@ == Map::<Seq<char>, (Seq<char>, Timestamp)>::empty(),
    {
        let r = Auth { sessions: Table::new() };
        assert(r@ =~= Map::<Seq<char>, (Seq<char>, Timestamp)>::empty());
        r
    }

    /// A session identifier that no live session has. If the first draw is
    /// taken, the same text with its first character changed is tried next,
    /// so at most one live identifier of the drawn shape cannot stop it;
    /// after that, identifiers are drawn afresh.
    fn gen_session_id(&self) -> (r: Option<SessionID>)
        requires
            self.wf(),
        ensures
            match r {
                Some(id) => !self@.contains_key(id@) && is_random_id(id@, SESSION_ID_LEN as nat),
                None => true,
            },
            at_most_one_shaped(self@, SESSION_ID_LEN as nat) ==> r is Some,
    {
        let first = random_alphanumeric(SESSION_ID_LEN);
        if !self.sessions.contains_key(&first) {
            return Some(SessionID(first));
        }
        let second = other_id(&first);
        if !self.sessions.contains_key(&second) {
            return Some(SessionID(second));
        }
        assert(self@.contains_key(first@) && self@.contains_key(second@));
        match gen_id(&self.sessions, SESSION_ID_LEN) {
            Some(s) => Some(SessionID(s)),
            None => None,
        }
    }

    /// Starts a session `session_id` for `user`, used at `at`. Does nothing,
    /// and gives `false`, if that identifier is taken.
    pub fn start_session(&mut self, user: UserID, session_id: SessionID, at: Timestamp) -> (r: bool)
        requires
            old(self).wf(),
        ensures
            final(self).wf(),
            r == !old(self)@.contains_key(session_id@),
            r ==> final(self)@ == old(self)@.insert(session_id@, (user@, at)),
            !r ==> final(self)@ == old(self)@,
    {
        if self.sessions.contains_key(&session_id.0) {
            return false;
        }
        let ghost u = user@;
        self.sessions.insert(session_id.0, (user, at));
        assert(self@ =~= old(self)@.insert(session_id@, (u, at)));
        true
    }

    /// Starts a session for `user` under a freshly drawn identifier, stamped
    /// with the current time.
    fn create_session(&mut self, user: UserID) -> (r: Option<SessionID>)
        requires
            old(self).wf(),
        ensures
            final(self).wf(),
            match r {
                Some(id) => {
                    &&& !old(self)@.contains_key(id@)
                    &&& final(self)@.contains_key(id@)
                    &&& final(self)@ == old(self)@.insert(id@, (user@, final(self)@[id@].1))
                },
                None => final(self)@ == old(self)@,
            },
            at_most_one_shaped(old(self)@, SESSION_ID_LEN as nat) ==> r is Some,
    {
        let id = match self.gen_session_id() {
            Some(id) => id,
            None => return None,
        };
        let kept = id.clone();
        if self.start_session(user, id, now()) {
            Some(kept)
        } else {
            None
        }
    }

    /// Registers `user_name` with `password`, unless the name is malformed, a
    /// credential for it already exists (`has_credential`), or it already has
    /// a profile. The credential is a fresh salted digest.
    pub fn signup(&mut self, user_name: &str, password: &str, has_credential: bool, db: &mut DB) -> (r:
        Result<UserID, SignupError>)
        requires
            old(db).wf(),
        ensures
            final(db).wf(),
            !valid_user_name(user_name@) ==> r == Err::<UserID, SignupError>(SignupError::InvalidUserName),
            valid_user_name(user_name@) && (has_credential || old(db)@.users.contains_key(user_name@))
                ==> r == Err::<UserID, SignupError>(SignupError::AlreadyExists),
            valid_user_name(user_name@) && !has_credential && !old(db)@.users.contains_key(user_name@)
                ==> r is Ok,
            r is Err ==> final(db)@ == old(db)@,
            match r {
                Ok(id) => {
                    &&& valid_user_name(user_name@)
                    &&& !has_credential
                    &&& !old(db)@.users.contains_key(user_name@)
                    &&& id@ == user_name@
                    &&& final(db)@.pending.len() == old(db)@.pending.len() + 2
                    &&& final(db)@.pending.last() is StoreAuth
                    &&& final(db)@.pending.last()->StoreAuth_0 == user_name@
                    &&& verifies(password@, final(db)@.pending.last()->StoreAuth_1)
                    &&& final(db)@ == (DBView {
                        users: old(db)@.users.insert(user_name@, empty_user()),
                        pending: old(db)@.pending.push(StoreOpView::StoreUser(user_name@)).push(
                            final(db)@.pending.last(),
                        ),
                        ..old(db)@
                    })
                },
                Err(_) => true,
            },
    {
        if !is_valid_user_name(user_name) {
            Err(SignupError::InvalidUserName)
        } else if has_credential {
            Err(SignupError::AlreadyExists)
        } else {
            let password_store = secure_password(password);
            match db.create_new_user(user_name, &password_store) {
                Ok(id) => Ok(id),
                Err(()) => Err(SignupError::AlreadyExists),
            }
        }
    }

    /// Logs `user_name` in with `password`, checked against its stored
    /// credential `stored`. On success the credential is renewed under a
    /// fresh salt (handed back, to be stored) and a new session is started.
    pub fn login(&mut self, user_name: &str, password: &str, stored: Option<&PasswordStore>) -> (r:
        Result<(UserID, SessionID, PasswordStore), LoginError>)
        requires
            old(self).wf(),
        ensures
            final(self).wf(),
            !valid_user_name(user_name@) ==> r == Err::<(UserID, SessionID, PasswordStore), LoginError>(
                LoginError::InvalidUserName,
            ),
            valid_user_name(user_name@) && !login_accepts(
                user_name@,
                password@,
                match stored {
                    Some(s) => Some(s@),
                    None => None,
                },
            ) ==> r == Err::<(UserID, SessionID, PasswordStore), LoginError>(
                LoginError::WrongCredentials,
            ),
            login_accepts(
                user_name@,
                password@,
                match stored {
                    Some(s) => Some(s@),
                    None => None,
                },
            ) ==> r is Ok || r == Err::<(UserID, SessionID, PasswordStore), LoginError>(
                LoginError::SessionUnavailable,
            ),
            login_accepts(
                user_name@,
                password@,
                match stored {
                    Some(s) => Some(s@),
                    None => None,
                },
            ) && at_most_one_shaped(old(self)@, SESSION_ID_LEN as nat) ==> r is Ok,
            r is Err ==> final(self)@ == old(self)@,
            match r {
                Ok((user, session, renewed)) => {
                    &&& user@ == user_name@
                    &&& verifies(password@, renewed@)
                    &&& is_random_id(renewed.salt@, SALT_LEN as nat)
                    &&& !old(self)@.contains_key(session@)
                    &&& final(self)@.contains_key(session@)
                    &&& final(self)@ == old(self)@.insert(session@, (user_name@, final(self)@[session@].1))
                },
                Err(_) => true,
            },
    {
        if !is_valid_user_name(user_name) {
            return Err(LoginError::InvalidUserName);
        }
        let accepted = match stored {
            Some(s) => match_password(password, s),
            None => false,
        };
        if !accepted {
            return Err(LoginError::WrongCredentials);
        }
        let renewed = secure_password(password);
        let id = UserID(user_name.to_owned());
        match self.create_session(id.clone()) {
            Some(session) => Ok((id, session, renewed)),
            None => Err(LoginError::SessionUnavailable),
        }
    }

    /// Ends the session.
    pub fn logout(&mut self, user: UserSession)
        requires
            old(self).wf(),
        ensures
            final(self).wf(),
            final(self)@ == old(self)@.remove(user.session_id@),
    {
        let _ = self.sessions.remove(&user.session_id.0);
        assert(self@ =~= old(self)@.remove(user.session_id@));
    }

    /// Replaces the session `old_id` by `new_id`, used at `at`, and gives its
    /// user. Does nothing, and gives `None`, if there is no session `old_id`
    /// or `new_id` is taken.
    pub fn rotate_session(&mut self, old_id: &SessionID, new_id: SessionID, at: Timestamp) -> (r:
        Option<UserID>)
        requires
            old(self).wf(),
        ensures
            final(self).wf(),
            match r {
                Some(user) => {
                    &&& old(self)@.contains_key(old_id@)
                    &&& !old(self)@.contains_key(new_id@)
                    &&& user@ == old(self)@[old_id@].0
                    &&& final(self)@ == rotated(old(self)@, old_id@, new_id@, at)
                },
                None => {
                    &&& !old(self)@.contains_key(old_id@) || old(self)@.contains_key(new_id@)
                    &&& final(self)@ == old(self)@
                },
            },
    {
        if self.sessions.contains_key(&new_id.0) {
            return None;
        }
        let (user, _) = match self.sessions.remove(&old_id.0) {
            Some(s) => s,
            None => return None,
        };
        let ghost u = user@;
        let kept = user.clone();
        self.sessions.insert(new_id.0, (user, at));
        assert(self@ =~= rotated(old(self)@, old_id@, new_id@, at));
        Some(kept)
    }

    /// Looks the session up and, if it exists, rotates it: the old
    /// identifier is retired and the user gets a new one, used now. `None`
    /// means "not authenticated": there is no such session, or no fresh
    /// identifier was drawn, in which case the session is ended.
    pub fn get_user_for_session_id(&mut self, session_id: SessionID) -> (r: Option<(SessionID, UserID)>)
        requires
            old(self).wf(),
        ensures
            final(self).wf(),
            !old(self)@.contains_key(session_id@) ==> r is None && final(self)@ == old(self)@,
            match r {
                Some((new_id, user)) => {
                    &&& old(self)@.contains_key(session_id@)
                    &&& !old(self)@.contains_key(new_id@)
                    &&& new_id@ != session_id@
                    &&& user@ == old(self)@[session_id@].0
                    &&& final(self)@.contains_key(new_id@)
                    &&& final(self)@ == rotated(
                        old(self)@,
                        session_id@,
                        new_id@,
                        final(self)@[new_id@].1,
                    )
                },
                None => if old(self)@.contains_key(session_id@) {
                    final(self)@ == old(self)@.remove(session_id@)
                } else {
                    final(self)@ == old(self)@
                },
            },
            old(self)@.contains_key(session_id@) && at_most_one_shaped(old(self)@, SESSION_ID_LEN as nat)
                ==> r is Some,
    {
        if !self.sessions.contains_key(&session_id.0) {
            return None;
        }
        match self.gen_session_id() {
            Some(new_id) => {
                let kept = new_id.clone();
                match self.rotate_session(&session_id, new_id, now()) {
                    Some(user) => Some((kept, user)),
                    None => None,
                }
            },
            None => {
                let _ = self.sessions.remove(&session_id.0);
                assert(self@ =~= old(self)@.remove(session_id@));
                None
            },
        }
    }

    /// Ends every session idle for more than `max_age` milliseconds at `now`.
    pub fn delete_sessions_older_than(&mut self, now: Timestamp, max_age: i64)
        requires
            old(self).wf(),
        ensures
            final(self).wf(),
            final(self)@ == old(self)@.filter_keys(
                |k: Seq<char>| !expired(now, old(self)@[k].1, max_age),
            ),
    {
        let ghost ks = self.sessions.key_seq();
        let ghost m0 = self@;
        proof {
            self.sessions.lemma_keys();
        }
        let mut kept: Table<(UserID, Timestamp)> = Table::new();
        let mut i: usize = 0;
        while i < self.sessions.len()
            invariant
                self.wf(),
                kept.wf(),
                m0 == self@,
                ks == self.sessions.key_seq(),
                ks.no_duplicates(),
                forall|k: Seq<char>| self.sessions@.contains_key(k) <==> #[trigger] ks.contains(k),
                i <= ks.len(),
                kept@.map_values(|s: (UserID, Timestamp)| (s.0@, s.1)) == m0.filter_keys(
                    |k: Seq<char>| ks.take(i as int).contains(k) && !expired(now, m0[k].1, max_age),
                ),
            decreases ks.len() - i,
        {
            let (key, entry) = self.sessions.entry_at(i);
            let ghost before = kept@.map_values(|s: (UserID, Timestamp)| (s.0@, s.1));
            proof {
                assert(ks.take(i + 1) =~= ks.take(i as int).push(key@));
                lemma_not_in_prefix(ks, i as int);
                assert(m0[key@] == (entry.0@, entry.1));
            }
            let idle: i128 = (now.millis as i128) - (entry.1.millis as i128);
            assert(idle == now.millis - entry.1.millis);
            if idle <= max_age as i128 {
                kept.insert(key.clone(), (entry.0.clone(), entry.1));
                assert(kept@.map_values(|s: (UserID, Timestamp)| (s.0@, s.1)) =~= before.insert(
                    key@,
                    m0[key@],
                ));
                assert(kept@.map_values(|s: (UserID, Timestamp)| (s.0@, s.1)) =~= m0.filter_keys(
                    |k: Seq<char>| ks.take(i + 1).contains(k) && !expired(now, m0[k].1, max_age),
                ));
            } else {
                assert(kept@.map_values(|s: (UserID, Timestamp)| (s.0@, s.1)) =~= m0.filter_keys(
                    |k: Seq<char>| ks.take(i + 1).contains(k) && !expired(now, m0[k].1, max_age),
                ));
            }
            i = i + 1;
        }
        proof {
            assert(ks.take(ks.len() as int) =~= ks);
        }
        self.sessions = kept;
        assert(self@ =~= m0.filter_keys(|k: Seq<char>| !expired(now, m0[k].1, max_age)));
    }
}

} // verus!
