//! Errors of the account and session operations.

use vstd::prelude::*;

use crate::ids::{hyphenated_hex, request_id_text};
use crate::text::{debug_quoted, debug_string};

verus! {

/// Why an account or session operation failed.
#[derive(Debug)]
pub enum Error {
    /// The database refused the request for a reason of its own.
    Surreal,
    /// Sign-up with a user name that is already registered.
    UsernameTaken(String),
    /// Sign-up data that breaks the credential rules: the user name and the
    /// codes of the rules it breaks.
    InvalidCredentials(String, Vec<&'static str>),
    /// Log-in or session data that the database does not accept.
    CredentialsInvalid,
    /// The database could not serve the request; the identifier, the 128
    /// bits of a UUID, ties the failure to its log line.
    ServiceUnavailable(u128),
    /// The record asked for does not exist.
    NotFound,
}

/// The codes of `codes`, each quoted as `Debug` writes it, separated by
/// commas.
pub open spec fn quoted_codes(codes: Seq<&'static str>) -> Seq<char>
    decreases codes.len(),
{
    if codes.len() == 0 {
        Seq::empty()
    } else if codes.len() == 1 {
        debug_quoted(codes[0]@)
    } else {
        quoted_codes(codes.drop_last()) + ", "@ + debug_quoted(codes.last()@)
    }
}

/// Writes the codes of `codes`, each quoted, separated by commas.
fn write_quoted_codes(codes: &Vec<&'static str>) -> (r: String)
    ensures
        r@ == quoted_codes(codes@),
{
    let mut r = String::new();
    let mut i: usize = 0;
    while i < codes.len()
        invariant
            i <= codes@.len(),
            r@ == quoted_codes(codes@.take(i as int)),
        decreases codes@.len() - i,
    {
        if i > 0 {
            r.append(", ");
        }
        let q = debug_string(codes[i]);
        r.append(q.as_str());
        assert(codes@.take(i + 1).drop_last() == codes@.take(i as int));
        i = i + 1;
    }
    assert(codes@.take(codes@.len() as int) == codes@);
    r
}

impl Error {
    /// The text of the error: the variant's name, then its fields in
    /// brackets, strings quoted and a request identifier hyphenated in lower
    /// case.
    pub open spec fn text(&self) -> Seq<char> {
        match self {
            Error::Surreal => "Surreal"@,
            Error::UsernameTaken(name) => "UsernameTaken("@ + debug_quoted(name@) + ")"@,
            Error::InvalidCredentials(name, codes) => "InvalidCredentials("@ + debug_quoted(name@)
                + ", ["@ + quoted_codes(codes@) + "])"@,
            Error::CredentialsInvalid => "CredentialsInvalid"@,
            Error::ServiceUnavailable(id) => "ServiceUnavailable("@ + hyphenated_hex(*id) + ")"@,
            Error::NotFound => "NotFound"@,
        }
    }

    /// Writes the text of the error. A request identifier is written
    /// hyphenated in lower case.
    pub fn to_string(&self) -> (r: String)
        ensures
            r@ == self.text(),
    {
        match self {
            Error::Surreal => String::from_str("Surreal"),
            Error::UsernameTaken(name) => {
                let mut r = String::from_str("UsernameTaken(");
                let q = debug_string(name.as_str());
                r.append(q.as_str());
                r.append(")");
                r
            },
            Error::InvalidCredentials(name, codes) => {
                let mut r = String::from_str("InvalidCredentials(");
                let q = debug_string(name.as_str());
                r.append(q.as_str());
                r.append(", [");
                let list = write_quoted_codes(codes);
                r.append(list.as_str());
                r.append("])");
                r
            },
            Error::CredentialsInvalid => String::from_str("CredentialsInvalid"),
            Error::ServiceUnavailable(id) => {
                let mut r = String::from_str("ServiceUnavailable(");
                let t = request_id_text(*id);
                r.append(t.as_str());
                r.append(")");
                r
            },
            Error::NotFound => String::from_str("NotFound"),
        }
    }
}

} // verus!

verus! {

/// What the account logic reads of a database error.
pub enum DbFailure {
    /// No record matched, as when log-in data is wrong.
    NoRecordFound,
    /// A unique index refused a value: the index name and the value as the
    /// database quotes it.
    IndexExists { index: String, value: String },
    /// Any other failure.
    Other,
}

} // verus!
