//! Account login decisions of the master ship.
//!
//! The account store is read by the runtime; what a looked-up row means for a
//! login, and which attempt gets recorded, is decided here. Password hashes
//! are checked with Argon2.

use crate::chat::{digits_value, is_digit, parse_usize_at, sign_stripped};
use vstd::prelude::*;

verus! {

/// A logged-in account.
#[derive(Clone, Debug, PartialEq, Eq)]
pub struct User {
    pub id: u32,
    pub nickname: String,
}

/// An account row as the store holds it.
#[derive(Clone, Debug, PartialEq, Eq)]
pub struct StoredUser {
    pub id: u32,
    pub nickname: String,
    /// The password hash as a PHC string.
    pub password: String,
}

/// Why a login failed.
#[derive(Clone, Copy, Debug, PartialEq, Eq, Structural)]
pub enum LoginError {
    /// The username or password was empty.
    InvalidData,
    /// No account has that name.
    NoUser,
    /// The password did not match the account with this id.
    InvalidPassword(u32),
}

/// Status of a recorded login attempt.
#[derive(Clone, Copy, Debug, PartialEq, Eq, Structural)]
pub enum LoginResult {
    Successful,
    LoginError,
}

/// Outcome of a login: the result for the client, and the attempt to record
/// for the account (its id and status), if one is to be recorded.
#[derive(Debug, PartialEq, Eq)]
pub struct LoginOutcome {
    pub result: Result<User, LoginError>,
    pub record: Option<(u32, LoginResult)>,
}

/// Whether Argon2 accepts `password` for the PHC string `stored`.
pub uninterp spec fn argon2_verifies(stored: Seq<char>, password: Seq<char>) -> bool;

/// The parameters of a PHC string, as (name, value) text in the order they
/// are written, when the string parses.
pub uninterp spec fn params_of(stored: Seq<char>) -> Option<Seq<(Seq<char>, Seq<char>)>>;

/// Parameters as (name, value) text.
pub open spec fn pairs_view(v: Seq<(String, String)>) -> Seq<(Seq<char>, Seq<char>)> {
    v.map_values(|p: (String, String)| (p.0@, p.1@))
}

/// A parameter value read as a PHC decimal: one or more ASCII digits, no
/// leading zero, fitting in 32 bits.
pub open spec fn phc_decimal(v: Seq<char>) -> Option<nat> {
    if v.len() > 0 && (forall|i: int| 0 <= i < v.len() ==> is_digit(v[i])) && !(v[0] == '0'
        && v.len() > 1) && digits_value(v) <= u32::MAX {
        Some(digits_value(v))
    } else {
        None
    }
}

/// Argon2 takes at most 2^24 - 1 lanes: no `p` parameter asks for more. A
/// value that is not a decimal makes Argon2 refuse the hash on its own.
pub open spec fn parallelism_in_range(ps: Seq<(Seq<char>, Seq<char>)>) -> bool {
    forall|i: int|
        0 <= i < ps.len() && ps[i].0 == seq!['p'] ==> match phc_decimal(ps[i].1) {
            Some(d) => d <= 0xFF_FFFF,
            None => true,
        }
}

/// The stored hash is one that Argon2 may be asked to check.
pub open spec fn hash_checkable(stored: Seq<char>) -> bool {
    match params_of(stored) {
        Some(ps) => parallelism_in_range(ps),
        None => true,
    }
}

/// A password login with this stored hash succeeds.
pub open spec fn password_accepted(stored: Seq<char>, password: Seq<char>) -> bool {
    hash_checkable(stored) && argon2_verifies(stored, password)
}

/// Relies on password_hash's `PasswordHash::new` to parse the stored PHC
/// string, and on iterating its `ParamsString` for the parameters.
#[verifier::external_body]
fn stored_params(stored: &str) -> (r: Option<Vec<(String, String)>>)
    ensures
        match r {
            Some(v) => params_of(stored@) == Some(pairs_view(v@)),
            None => params_of(stored@) is None,
        },
{
    match argon2::PasswordHash::new(stored) {
        Ok(hash) => Some(
            hash.params.iter().map(|(n, v)| (n.as_str().to_string(), v.as_str().to_string())).collect(),
        ),
        Err(_) => None,
    }
}

/// The name is exactly `p`.
fn is_p(name: &str) -> (r: bool)
    ensures
        r == (name@ == seq!['p']),
{
    if name.unicode_len() != 1 {
        return false;
    }
    let c = name.get_char(0);
    proof {
        if c == 'p' {
            assert(name@ =~= seq!['p']);
        }
    }
    c == 'p'
}

/// The value is a PHC decimal above 2^24 - 1.
fn too_many_lanes(v: &str) -> (r: bool)
    ensures
        r == (phc_decimal(v@) matches Some(d) && d > 0xFF_FFFF),
{
    let len = v.unicode_len();
    if len == 0 {
        return false;
    }
    let first = v.get_char(0);
    if first == '+' || (first == '0' && len > 1) {
        return false;
    }
    proof {
        assert(v@.subrange(0, len as int) =~= v@);
        assert(sign_stripped(v@) == v@);
    }
    match parse_usize_at(v, 0, len) {
        Some(d) => d > 0xFF_FFFF && d as u64 <= 0xFFFF_FFFF,
        None => false,
    }
}

/// Every `p` parameter is within Argon2's range.
fn parallelism_ok(ps: &Vec<(String, String)>) -> (r: bool)
    ensures
        r == parallelism_in_range(pairs_view(ps@)),
{
    let ghost view = pairs_view(ps@);
    let mut i: usize = 0;
    while i < ps.len()
        invariant
            0 <= i <= ps@.len(),
            view == pairs_view(ps@),
            forall|j: int|
                0 <= j < i && view[j].0 == seq!['p'] ==> match phc_decimal(view[j].1) {
                    Some(d) => d <= 0xFF_FFFF,
                    None => true,
                },
        decreases ps@.len() - i,
    {
        proof {
            assert(view[i as int] == (ps@[i as int].0@, ps@[i as int].1@));
        }
        if is_p(ps[i].0.as_str()) && too_many_lanes(ps[i].1.as_str()) {
            return false;
        }
        i = i + 1;
    }
    true
}

/// Relies on password_hash's `PasswordHash::new` to parse the stored PHC
/// string and its `verify_password` with argon2's default `Argon2` to check
/// the password against it; an unparsable or empty string accepts nothing.
/// argon2 multiplies each `p` by 8 in 32 bits before it range-checks it, so
/// a hash with any larger `p` is kept out.
#[verifier::external_body]
fn verify_password(stored: &str, password: &str) -> (r: bool)
    requires
        hash_checkable(stored@),
    ensures
        r == argon2_verifies(stored@, password@),
        stored@.len() == 0 ==> !r,
{
    match argon2::PasswordHash::new(stored) {
        Ok(hash) => hash.verify_password(&[&argon2::Argon2::default()], password).is_ok(),
        Err(_) => false,
    }
}

/// A login is attempted only with a non-empty username and password.
pub fn login_input_valid(username: &str, password: &str) -> (r: bool)
    ensures
        r == (username@.len() > 0 && password@.len() > 0),
{
    !username.is_empty() && !password.is_empty()
}

/// What a password login with a found row comes to, given whether the
/// password matched: the user on a match, `InvalidPassword` otherwise, and
/// the attempt recorded either way.
pub fn sega_login_outcome(row: StoredUser, password_ok: bool) -> (r: LoginOutcome)
    ensures
        password_ok ==> (r.result matches Ok(u) && u.id == row.id && u.nickname@ == row.nickname@),
        !password_ok ==> r.result == Err::<User, LoginError>(LoginError::InvalidPassword(row.id)),
        r.record == Some((row.id, if password_ok {
            LoginResult::Successful
        } else {
            LoginResult::LoginError
        })),
{
    if password_ok {
        LoginOutcome {
            result: Ok(User { id: row.id, nickname: row.nickname }),
            record: Some((row.id, LoginResult::Successful)),
        }
    } else {
        LoginOutcome {
            result: Err(LoginError::InvalidPassword(row.id)),
            record: Some((row.id, LoginResult::LoginError)),
        }
    }
}

/// Logs in with a username and password: empty input is refused before any
/// lookup, an unknown name is `NoUser`, and a found row is checked against
/// its Argon2 hash; a hash whose parallelism is beyond what Argon2 allows
/// accepts no password.
pub fn get_sega_user(username: &str, password: &str, row: Option<StoredUser>) -> (r: LoginOutcome)
    ensures
        !(username@.len() > 0 && password@.len() > 0) ==> r.result == Err::<User, LoginError>(
            LoginError::InvalidData,
        ) && r.record is None,
        username@.len() > 0 && password@.len() > 0 ==> match row {
            None => r.result == Err::<User, LoginError>(LoginError::NoUser) && r.record is None,
            Some(u) => {
                let ok = password_accepted(u.password@, password@);
                &&& ok ==> (r.result matches Ok(v) && v.id == u.id && v.nickname@ == u.nickname@)
                &&& !ok ==> r.result == Err::<User, LoginError>(LoginError::InvalidPassword(u.id))
                &&& r.record == Some((u.id, if ok {
                    LoginResult::Successful
                } else {
                    LoginResult::LoginError
                }))
            },
        },
{
    if !login_input_valid(username, password) {
        return LoginOutcome { result: Err(LoginError::InvalidData), record: None };
    }
    match row {
        None => LoginOutcome { result: Err(LoginError::NoUser), record: None },
        Some(u) => {
            let in_range = match stored_params(u.password.as_str()) {
                Some(ps) => parallelism_ok(&ps),
                None => true,
            };
            let ok = if in_range {
                verify_password(u.password.as_str(), password)
            } else {
                false
            };
            sega_login_outcome(u, ok)
        },
    }
}

/// Logs in by network nickname: an empty name is refused, an unknown one is
/// `NoUser`, and a found account logs in with its attempt recorded.
pub fn get_psn_user(username: &str, row: Option<(u32, String)>) -> (r: LoginOutcome)
    ensures
        username@.len() == 0 ==> r.result == Err::<User, LoginError>(LoginError::InvalidData)
            && r.record is None,
        username@.len() > 0 ==> match row {
            None => r.result == Err::<User, LoginError>(LoginError::NoUser) && r.record is None,
            Some((id, nickname)) => r.result matches Ok(v) && v.id == id && v.nickname@
                == nickname@ && r.record == Some((id, LoginResult::Successful)),
        },
{
    if username.is_empty() {
        return LoginOutcome { result: Err(LoginError::InvalidData), record: None };
    }
    match row {
        None => LoginOutcome { result: Err(LoginError::NoUser), record: None },
        Some((id, nickname)) => LoginOutcome {
            result: Ok(User { id, nickname }),
            record: Some((id, LoginResult::Successful)),
        },
    }
}

} // verus!
