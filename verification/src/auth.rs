//! Who may ask: the token that a client sends must be the digest of the user's password
//! followed by the salt that the client chose.

use crate::entities::UserModel;
use md5::{Digest, Md5};
use vstd::prelude::*;
use vstd::string::StringExecFns;

verus! {

/// What a client sends to say who it is: the user's name `u`, the token `t`, the salt
/// `s`, the protocol version `v`, the client's name `c` and the answer format `f`.
#[derive(Clone, Debug, PartialEq, Eq)]
pub struct Auth {
    pub u: String,
    pub t: String,
    pub s: String,
    pub v: String,
    pub c: String,
    pub f: String,
}

impl Default for Auth {
    fn default() -> (r: Self)
        ensures
            r.u@.len() == 0,
            r.t@.len() == 0,
            r.s@.len() == 0,
            r.v@.len() == 0,
            r.c@.len() == 0,
            r.f@.len() == 0,
    {
        Auth {
            u: String::new(),
            t: String::new(),
            s: String::new(),
            v: String::new(),
            c: String::new(),
            f: String::new(),
        }
    }
}

/// The MD5 digest of a text's bytes, written as lower-case hexadecimal digits.
pub uninterp spec fn md5_hex(text: Seq<char>) -> Seq<char>;

/// Calls `Md5::new`, `update` and `finalize` of the crate `md-5` on the text and writes
/// the digest with `{:x}`. The contract only names the result: it is the digest of this
/// text and of nothing else.
#[verifier::external_body]
fn digest_hex(text: &String) -> (r: String)
    ensures
        r@ == md5_hex(text@),
{
    let mut hasher = Md5::new();
    hasher.update(text);
    format!("{:x}", hasher.finalize())
}

/// Whether the token is this digest, letter for letter.
pub fn token_matches(token: &String, digest: &String) -> (r: bool)
    ensures
        r == (token@ == digest@),
{
    *token == *digest
}

impl Auth {
    /// Whether the token is the digest of the password followed by the salt.
    pub fn accepts(&self, password: &String) -> (r: bool)
        ensures
            r == (self.t@ == md5_hex(password@ + self.s@)),
    {
        let salted = password.clone().concat(self.s.as_str());
        let digest = digest_hex(&salted);
        token_matches(&self.t, &digest)
    }
}

/// Whether the request may pass: the user is known, and the token fits its password.
pub fn authorize(auth: &Auth, user: Option<&UserModel>) -> (r: bool)
    ensures
        r == match user {
            Some(u) => auth.t@ == md5_hex(u.password@ + auth.s@),
            None => false,
        },
{
    match user {
        Some(u) => auth.accepts(&u.password),
        None => false,
    }
}

} // verus!
