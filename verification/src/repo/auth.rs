//! Credentials and the rules that sign-up data must meet.

use vstd::prelude::*;
use vstd::utf8::encode_utf8;

use crate::ids::fresh_request_id;
use crate::repo::error::{DbFailure, Error};
use crate::text::{class_of, classes_of, classify_all, possible_class, possible_classes, str_eq, unicode_alphanumeric, unicode_whitespace, CharClass};

verus! {

/// Code of the rule: a user name is 2 to 32 bytes long.
pub const USERNAME_INVALID_LENGTH: &'static str = "username_invalid_length";

/// Code of the rule: a user name holds a letter or digit, and only letters,
/// digits and underscores.
pub const USERNAME_INVALID_CHARACTERS: &'static str = "username_invalid_characters";

/// Code of the rule: a user name starts and ends with a letter or digit.
pub const USERNAME_INVALID_FORMAT: &'static str = "username_invalid_format";

/// Code of the rule: a password is at least 8 bytes long.
pub const PASSWORD_INVALID_LENGTH: &'static str = "password_invalid_length";

/// Code of the rule: a password mixes letters or digits with other
/// characters, and holds no whitespace.
pub const PASSWORD_INVALID_CHARACTERS: &'static str = "password_invalid_characters";

/// Some character is a letter or digit.
pub open spec fn has_alphanumeric(cs: Seq<CharClass>) -> bool {
    exists|i: int| 0 <= i < cs.len() && #[trigger] cs[i].alphanumeric
}

/// Some character is neither a letter nor a digit.
pub open spec fn has_non_alphanumeric(cs: Seq<CharClass>) -> bool {
    exists|i: int| 0 <= i < cs.len() && !#[trigger] cs[i].alphanumeric
}

/// Some character is whitespace.
pub open spec fn has_whitespace(cs: Seq<CharClass>) -> bool {
    exists|i: int| 0 <= i < cs.len() && #[trigger] cs[i].whitespace
}

/// Every character is a letter, a digit or an underscore.
pub open spec fn only_word_characters(cs: Seq<CharClass>) -> bool {
    forall|i: int| 0 <= i < cs.len() ==> #[trigger] cs[i].alphanumeric || cs[i].underscore
}

/// The length rule for user names, over the length in bytes.
pub open spec fn username_length_ok(byte_len: int) -> bool {
    2 <= byte_len <= 32
}

/// The character rule for user names.
pub open spec fn username_characters_ok(cs: Seq<CharClass>) -> bool {
    has_alphanumeric(cs) && only_word_characters(cs) && !has_whitespace(cs)
}

/// The format rule for user names: first and last character are letters or digits.
pub open spec fn username_format_ok(cs: Seq<CharClass>) -> bool {
    cs.len() > 0 && cs[0].alphanumeric && cs[cs.len() - 1].alphanumeric
}

/// The codes of the user-name rules broken by a name of `byte_len` bytes whose
/// characters have the classes `cs`, in the order length, characters, format.
pub open spec fn username_rule(byte_len: int, cs: Seq<CharClass>) -> Seq<&'static str> {
    (if username_length_ok(byte_len) { Seq::empty() } else { seq![USERNAME_INVALID_LENGTH] })
        + (if username_characters_ok(cs) { Seq::empty() } else { seq![USERNAME_INVALID_CHARACTERS] })
        + (if username_format_ok(cs) { Seq::empty() } else { seq![USERNAME_INVALID_FORMAT] })
}

/// The length rule for passwords, over the length in bytes.
pub open spec fn password_length_ok(byte_len: int) -> bool {
    byte_len >= 8
}

/// The character rule for passwords.
pub open spec fn password_characters_ok(cs: Seq<CharClass>) -> bool {
    has_alphanumeric(cs) && has_non_alphanumeric(cs) && !has_whitespace(cs)
}

/// The codes of the password rules broken by a password of `byte_len` bytes
/// whose characters have the classes `cs`, in the order length, characters.
pub open spec fn password_rule(byte_len: int, cs: Seq<CharClass>) -> Seq<&'static str> {
    (if password_length_ok(byte_len) { Seq::empty() } else { seq![PASSWORD_INVALID_LENGTH] })
        + (if password_characters_ok(cs) { Seq::empty() } else { seq![PASSWORD_INVALID_CHARACTERS] })
}

/// The codes of the rules that the user name `s` breaks.
pub open spec fn username_errors(s: Seq<char>) -> Seq<&'static str> {
    username_rule(encode_utf8(s).len() as int, classes_of(s))
}

/// The codes of the rules that the user name `s` breaks, with the character
/// rule read as: some letter or digit, and only letters, digits and
/// underscores.
pub open spec fn username_word_errors(s: Seq<char>) -> Seq<&'static str> {
    let cs = classes_of(s);
    (if username_length_ok(encode_utf8(s).len() as int) { Seq::empty() } else { seq![USERNAME_INVALID_LENGTH] })
        + (if has_alphanumeric(cs) && only_word_characters(cs) { Seq::empty() } else { seq![USERNAME_INVALID_CHARACTERS] })
        + (if username_format_ok(cs) { Seq::empty() } else { seq![USERNAME_INVALID_FORMAT] })
}

/// On classes that characters can have, a name made of letters, digits and
/// underscores holds no whitespace, so the whitespace clause of the character
/// rule adds nothing.
pub proof fn lemma_word_characters_hold_no_whitespace(cs: Seq<CharClass>)
    requires
        possible_classes(cs),
    ensures
        username_characters_ok(cs) == (has_alphanumeric(cs) && only_word_characters(cs)),
{
    if only_word_characters(cs) && has_whitespace(cs) {
        let i = choose|i: int| 0 <= i < cs.len() && #[trigger] cs[i].whitespace;
        assert(possible_class(cs[i]));
        assert(cs[i].alphanumeric || cs[i].underscore);
    }
}

/// The codes of the rules that the password `s` breaks.
pub open spec fn password_errors(s: Seq<char>) -> Seq<&'static str> {
    password_rule(encode_utf8(s).len() as int, classes_of(s))
}

/// The codes of the rules that a user name and password break, those of the
/// user name first.
pub open spec fn credential_errors(username: Seq<char>, password: Seq<char>) -> Seq<&'static str> {
    username_errors(username) + password_errors(password)
}

/// What a scan of the classes finds: some letter or digit, some other
/// character, some whitespace, and whether all are word characters.
fn scan_classes(cs: &Vec<CharClass>) -> (r: (bool, bool, bool, bool))
    ensures
        r.0 == has_alphanumeric(cs@),
        r.1 == has_non_alphanumeric(cs@),
        r.2 == has_whitespace(cs@),
        r.3 == only_word_characters(cs@),
{
    let n = cs.len();
    let mut any_alnum = false;
    let mut any_other = false;
    let mut any_space = false;
    let mut all_word = true;
    let mut i: usize = 0;
    while i < n
        invariant
            n == cs@.len(),
            i <= n,
            any_alnum == (exists|j: int| 0 <= j < i && #[trigger] cs@[j].alphanumeric),
            any_other == (exists|j: int| 0 <= j < i && !#[trigger] cs@[j].alphanumeric),
            any_space == (exists|j: int| 0 <= j < i && #[trigger] cs@[j].whitespace),
            all_word == (forall|j: int| 0 <= j < i ==> #[trigger] cs@[j].alphanumeric || cs@[j].underscore),
        decreases n - i,
    {
        let c = cs[i];
        if c.alphanumeric {
            any_alnum = true;
        } else {
            any_other = true;
        }
        if c.whitespace {
            any_space = true;
        }
        if !c.alphanumeric && !c.underscore {
            all_word = false;
        }
        i = i + 1;
    }
    (any_alnum, any_other, any_space, all_word)
}

/// The codes of the user-name rules broken by a name of `byte_len` bytes whose
/// characters have the classes `classes`.
pub fn username_rule_errors(byte_len: usize, classes: &Vec<CharClass>) -> (errors: Vec<&'static str>)
    ensures
        errors@ == username_rule(byte_len as int, classes@),
{
    let (any_alnum, _any_other, any_space, all_word) = scan_classes(classes);
    let n = classes.len();
    let mut errors: Vec<&'static str> = Vec::new();
    let ghost a: Seq<&'static str> = if username_length_ok(byte_len as int) { Seq::empty() } else { seq![USERNAME_INVALID_LENGTH] };
    let ghost b: Seq<&'static str> = if username_characters_ok(classes@) { Seq::empty() } else { seq![USERNAME_INVALID_CHARACTERS] };
    let ghost c: Seq<&'static str> = if username_format_ok(classes@) { Seq::empty() } else { seq![USERNAME_INVALID_FORMAT] };
    if byte_len < 2 || byte_len > 32 {
        errors.push(USERNAME_INVALID_LENGTH);
    }
    assert(errors@ == a);
    if !any_alnum || !all_word || any_space {
        errors.push(USERNAME_INVALID_CHARACTERS);
    }
    assert(errors@ == a + b);
    if n == 0 || !classes[0].alphanumeric || !classes[n - 1].alphanumeric {
        errors.push(USERNAME_INVALID_FORMAT);
    }
    assert(errors@ == a + b + c);
    errors
}

/// The codes of the password rules broken by a password of `byte_len` bytes
/// whose characters have the classes `classes`.
pub fn password_rule_errors(byte_len: usize, classes: &Vec<CharClass>) -> (errors: Vec<&'static str>)
    ensures
        errors@ == password_rule(byte_len as int, classes@),
{
    let (any_alnum, any_other, any_space, _all_word) = scan_classes(classes);
    let mut errors: Vec<&'static str> = Vec::new();
    let ghost a: Seq<&'static str> = if password_length_ok(byte_len as int) { Seq::empty() } else { seq![PASSWORD_INVALID_LENGTH] };
    let ghost b: Seq<&'static str> = if password_characters_ok(classes@) { Seq::empty() } else { seq![PASSWORD_INVALID_CHARACTERS] };
    if byte_len < 8 {
        errors.push(PASSWORD_INVALID_LENGTH);
    }
    assert(errors@ == a);
    if !any_alnum || !any_other || any_space {
        errors.push(PASSWORD_INVALID_CHARACTERS);
    }
    assert(errors@ == a + b);
    errors
}

/// The codes of the rules that the user name breaks.
pub fn verify_username(username: &str) -> (errors: Vec<&'static str>)
    ensures
        errors@ == username_errors(username@),
        errors@ == username_word_errors(username@),
{
    let classes = classify_all(username);
    proof {
        lemma_word_characters_hold_no_whitespace(classes@);
    }
    username_rule_errors(username.as_bytes().len(), &classes)
}

/// The codes of the rules that the password breaks.
pub fn verify_password(password: &str) -> (errors: Vec<&'static str>)
    ensures
        errors@ == password_errors(password@),
{
    let classes = classify_all(password);
    password_rule_errors(password.as_bytes().len(), &classes)
}

/// Sign-up, log-in or session data as a form or a cookie hands it over.
pub struct Credentials {
    pub username: Option<String>,
    pub password: Option<String>,
    pub token_str: Option<String>,
}

/// The outcome that checking credentials with user name `u` and password `p` has.
pub open spec fn verify_outcome_ok(r: Result<(), Error>, u: Seq<char>, p: Seq<char>) -> bool {
    if credential_errors(u, p).len() == 0 {
        r is Ok
    } else {
        r matches Err(Error::InvalidCredentials(name, codes)) && name@ == u && codes@
            == credential_errors(u, p)
    }
}

impl Credentials {
    /// Credentials for sign-up or log-in.
    pub fn with_username_password(username: String, password: String) -> (c: Self)
        ensures
            c.username == Some(username),
            c.password == Some(password),
            c.token_str.is_none(),
    {
        Credentials { username: Some(username), password: Some(password), token_str: None }
    }

    /// Credentials that carry a session token only.
    pub fn with_token(token: String) -> (c: Self)
        ensures
            c.username.is_none(),
            c.password.is_none(),
            c.token_str == Some(token),
    {
        Credentials { username: None, password: None, token_str: Some(token) }
    }

    /// Whether `r` is the outcome of checking these credentials: user name
    /// and password are checked against the rules when both are given, and
    /// credentials that lack either pass unchecked.
    pub open spec fn verify_answer(&self, r: Result<(), Error>) -> bool {
        match (self.username, self.password) {
            (Some(u), Some(p)) => verify_outcome_ok(r, u@, p@),
            _ => r is Ok,
        }
    }

    /// Checks user name and password against the rules when both are given;
    /// credentials that lack either pass unchecked.
    pub fn verify(&self) -> (r: Result<(), Error>)
        ensures
            self.verify_answer(r),
    {
        match (&self.username, &self.password) {
            (Some(username), Some(password)) => {
                let mut errors = verify_username(username.as_str());
                let mut password_codes = verify_password(password.as_str());
                errors.append(&mut password_codes);
                if errors.len() > 0 {
                    Err(Error::InvalidCredentials(username.clone(), errors))
                } else {
                    Ok(())
                }
            },
            _ => Ok(()),
        }
    }
}

} // verus!

verus! {

/// Name of the unique index on user names.
pub const USER_NAME_INDEX: &'static str = "user_name";

/// Whether `r` answers a sign-up whose query the database checked as
/// `check`: a user name that the unique index refuses is taken, and any other
/// failure makes the service unavailable.
pub open spec fn signup_answer(check: Result<(), DbFailure>, r: Result<(), Error>) -> bool {
    match check {
        Ok(()) => r is Ok,
        Err(DbFailure::IndexExists { index, value }) => if index@ == USER_NAME_INDEX@ {
            r matches Err(Error::UsernameTaken(u)) && u == value
        } else {
            r matches Err(Error::ServiceUnavailable(_))
        },
        Err(_) => r matches Err(Error::ServiceUnavailable(_)),
    }
}

/// The answer to a sign-up from the database's check of the sign-up query: a
/// user name that the unique index refuses is taken, and any other failure
/// makes the service unavailable.
pub fn signup_outcome(check: Result<(), DbFailure>) -> (r: Result<(), Error>)
    ensures
        signup_answer(check, r),
{
    match check {
        Ok(()) => Ok(()),
        Err(DbFailure::IndexExists { index, value }) => {
            if str_eq(index.as_str(), USER_NAME_INDEX) {
                Err(Error::UsernameTaken(value))
            } else {
                Err(Error::ServiceUnavailable(fresh_request_id()))
            }
        },
        Err(_) => Err(Error::ServiceUnavailable(fresh_request_id())),
    }
}

/// Whether `e` is the error of a sign-in that the database refused with
/// `failure`: data that matches no record is invalid, and any other failure
/// makes the service unavailable.
pub open spec fn signin_error(failure: DbFailure, e: Error) -> bool {
    match failure {
        DbFailure::NoRecordFound => e is CredentialsInvalid,
        _ => e is ServiceUnavailable,
    }
}

/// The error of a refused sign-in: data that matches no record is invalid,
/// and any other failure makes the service unavailable.
pub fn signin_failure(failure: DbFailure) -> (r: Error)
    ensures
        signin_error(failure, r),
{
    match failure {
        DbFailure::NoRecordFound => Error::CredentialsInvalid,
        _ => Error::ServiceUnavailable(fresh_request_id()),
    }
}

/// Whether `r` is the answer to a log-in for which the database handed out
/// `token`: it must have created one.
pub open spec fn token_answer(token: Option<String>, r: Result<String, Error>) -> bool {
    match token {
        Some(t) => r == Ok::<String, Error>(t),
        None => r matches Err(Error::CredentialsInvalid),
    }
}

/// The session token that a log-in yields: the database must have created one.
pub fn session_token(token: Option<String>) -> (r: Result<String, Error>)
    ensures
        token_answer(token, r),
{
    match token {
        Some(t) => Ok(t),
        None => Err(Error::CredentialsInvalid),
    }
}

/// What a sign-up has come to.
pub enum SignupEvent {
    /// The sign-up was asked for.
    Requested,
    /// The database session for the sign-up was prepared, or could not be.
    SessionPrepared(Result<(), DbFailure>),
    /// The database checked the sign-up query.
    QueryChecked(Result<(), DbFailure>),
}

/// What a sign-up does next.
pub enum SignupAction {
    /// Prepare the database session.
    PrepareSession,
    /// Run the sign-up query with the user name and password.
    RunQuery,
    /// Answer the request.
    Answer(Result<(), Error>),
}

/// The next step of a sign-up with `credentials` after `event`. Credentials
/// that break the rules are answered before the database is used; a session
/// that cannot be prepared makes the service unavailable; the query's check
/// decides the answer.
pub fn signup_step(credentials: &Credentials, event: SignupEvent) -> (r: SignupAction)
    ensures
        match event {
            SignupEvent::Requested => match r {
                SignupAction::PrepareSession => credentials.verify_answer(Ok(())),
                SignupAction::Answer(a) => a is Err && credentials.verify_answer(a),
                SignupAction::RunQuery => false,
            },
            SignupEvent::SessionPrepared(Ok(())) => r is RunQuery,
            SignupEvent::SessionPrepared(Err(_)) => r matches SignupAction::Answer(
                Err(Error::ServiceUnavailable(_)),
            ),
            SignupEvent::QueryChecked(check) => r matches SignupAction::Answer(a) && signup_answer(
                check,
                a,
            ),
        },
{
    match event {
        SignupEvent::Requested => match credentials.verify() {
            Ok(()) => SignupAction::PrepareSession,
            Err(e) => SignupAction::Answer(Err(e)),
        },
        SignupEvent::SessionPrepared(Ok(())) => SignupAction::RunQuery,
        SignupEvent::SessionPrepared(Err(_)) => SignupAction::Answer(
            Err(Error::ServiceUnavailable(fresh_request_id())),
        ),
        SignupEvent::QueryChecked(check) => SignupAction::Answer(signup_outcome(check)),
    }
}

/// What a log-in has come to.
pub enum LoginEvent {
    /// The log-in was asked for.
    Requested,
    /// The database signed the user in, or refused.
    SignedIn(Result<(), DbFailure>),
    /// The database ran the session query and handed out its token, if any,
    /// or failed.
    SessionCreated(Result<Option<String>, DbFailure>),
}

/// What a log-in does next.
pub enum LoginAction {
    /// Sign in to the database with the credentials.
    SignIn,
    /// Create a session for the signed-in user.
    CreateSession,
    /// Answer the request.
    Answer(Result<String, Error>),
}

/// The next step of a log-in after `event`. A refused sign-in is answered
/// with its error, a failed session query makes the service unavailable, and
/// the answer is the token that the session query handed out.
pub fn login_step(event: LoginEvent) -> (r: LoginAction)
    ensures
        match event {
            LoginEvent::Requested => r is SignIn,
            LoginEvent::SignedIn(Ok(())) => r is CreateSession,
            LoginEvent::SignedIn(Err(f)) => r matches LoginAction::Answer(Err(e)) && signin_error(f, e),
            LoginEvent::SessionCreated(Err(_)) => r matches LoginAction::Answer(
                Err(Error::ServiceUnavailable(_)),
            ),
            LoginEvent::SessionCreated(Ok(token)) => r matches LoginAction::Answer(a) && token_answer(
                token,
                a,
            ),
        },
{
    match event {
        LoginEvent::Requested => LoginAction::SignIn,
        LoginEvent::SignedIn(Ok(())) => LoginAction::CreateSession,
        LoginEvent::SignedIn(Err(f)) => LoginAction::Answer(Err(signin_failure(f))),
        LoginEvent::SessionCreated(Err(_)) => LoginAction::Answer(
            Err(Error::ServiceUnavailable(fresh_request_id())),
        ),
        LoginEvent::SessionCreated(Ok(token)) => LoginAction::Answer(session_token(token)),
    }
}

/// The record that a lookup of the signed-in user yields: a missing record is
/// not found.
pub fn found_record<T>(record: Option<T>) -> (r: Result<T, Error>)
    ensures
        match record {
            Some(t) => r matches Ok(x) && x == t,
            None => r matches Err(Error::NotFound),
        },
{
    match record {
        Some(t) => Ok(t),
        None => Err(Error::NotFound),
    }
}

} // verus!

verus! {

/// A user name is accepted exactly when it is 2 to 32 bytes long, starts and
/// ends with a letter or digit, and holds only letters, digits and underscores,
/// none of them whitespace.
pub proof fn lemma_username_accepted(s: Seq<char>)
    ensures
        username_errors(s).len() == 0 <==> {
            &&& 2 <= encode_utf8(s).len() <= 32
            &&& s.len() > 0
            &&& unicode_alphanumeric(s[0])
            &&& unicode_alphanumeric(s[s.len() - 1])
            &&& forall|i: int| 0 <= i < s.len() ==> (unicode_alphanumeric(#[trigger] s[i]) || s[i] == '_')
                && !unicode_whitespace(s[i])
        },
{
    let cs = classes_of(s);
    assert forall|i: int| 0 <= i < s.len() implies #[trigger] cs[i] == class_of(s[i]) by {}
    if s.len() > 0 && unicode_alphanumeric(s[0]) {
        assert(cs[0].alphanumeric);
    }
    if username_errors(s).len() == 0 {
        assert forall|i: int| 0 <= i < s.len() implies (unicode_alphanumeric(#[trigger] s[i]) || s[i] == '_')
            && !unicode_whitespace(s[i]) by {
            assert(cs[i].alphanumeric || cs[i].underscore);
            if unicode_whitespace(s[i]) {
                assert(cs[i].whitespace);
            }
        }
    }
}

/// The codes that a user name breaks, in the order length, characters,
/// format: the length code where it is not 2 to 32 bytes long; the character
/// code where it holds no letter or digit, or a character that is neither a
/// letter, a digit nor an underscore, or whitespace; the format code where it
/// does not start and end with a letter or digit.
pub proof fn lemma_username_codes(s: Seq<char>)
    ensures
        username_errors(s) == (if 2 <= encode_utf8(s).len() <= 32 {
            Seq::empty()
        } else {
            seq![USERNAME_INVALID_LENGTH]
        }) + (if (exists|i: int| 0 <= i < s.len() && unicode_alphanumeric(#[trigger] s[i])) && (forall|i: int|
            0 <= i < s.len() ==> (unicode_alphanumeric(#[trigger] s[i]) || s[i] == '_') && !unicode_whitespace(s[i])) {
            Seq::empty()
        } else {
            seq![USERNAME_INVALID_CHARACTERS]
        }) + (if s.len() > 0 && unicode_alphanumeric(s[0]) && unicode_alphanumeric(s[s.len() - 1]) {
            Seq::empty()
        } else {
            seq![USERNAME_INVALID_FORMAT]
        }),
{
    let cs = classes_of(s);
    assert forall|i: int| 0 <= i < s.len() implies #[trigger] cs[i] == class_of(s[i]) by {}
    if exists|i: int| 0 <= i < s.len() && unicode_alphanumeric(#[trigger] s[i]) {
        let i = choose|i: int| 0 <= i < s.len() && unicode_alphanumeric(#[trigger] s[i]);
        assert(cs[i].alphanumeric);
    }
    if has_alphanumeric(cs) {
        let i = choose|i: int| 0 <= i < cs.len() && #[trigger] cs[i].alphanumeric;
        assert(unicode_alphanumeric(s[i]));
    }
    if only_word_characters(cs) && !has_whitespace(cs) {
        assert forall|i: int| 0 <= i < s.len() implies (unicode_alphanumeric(#[trigger] s[i]) || s[i] == '_')
            && !unicode_whitespace(s[i]) by {
            assert(cs[i].alphanumeric || cs[i].underscore);
            if unicode_whitespace(s[i]) {
                assert(cs[i].whitespace);
            }
        }
    }
    if forall|i: int| 0 <= i < s.len() ==> (unicode_alphanumeric(#[trigger] s[i]) || s[i] == '_') && !unicode_whitespace(s[i]) {
        assert forall|i: int| 0 <= i < cs.len() implies #[trigger] cs[i].alphanumeric || cs[i].underscore by {
            assert(unicode_alphanumeric(s[i]) || s[i] == '_');
        }
        if has_whitespace(cs) {
            let i = choose|i: int| 0 <= i < cs.len() && #[trigger] cs[i].whitespace;
            assert(!unicode_whitespace(s[i]));
        }
    }
}

/// The codes that a password breaks, in the order length, characters: the
/// length code where it is shorter than 8 bytes; the character code where it
/// lacks a letter or digit, or lacks a character that is neither, or holds
/// whitespace.
pub proof fn lemma_password_codes(s: Seq<char>)
    ensures
        password_errors(s) == (if encode_utf8(s).len() >= 8 {
            Seq::empty()
        } else {
            seq![PASSWORD_INVALID_LENGTH]
        }) + (if (exists|i: int| 0 <= i < s.len() && unicode_alphanumeric(#[trigger] s[i])) && (exists|i: int|
            0 <= i < s.len() && !unicode_alphanumeric(#[trigger] s[i])) && (forall|i: int| 0 <= i < s.len()
            ==> !unicode_whitespace(#[trigger] s[i])) {
            Seq::empty()
        } else {
            seq![PASSWORD_INVALID_CHARACTERS]
        }),
{
    let cs = classes_of(s);
    assert forall|i: int| 0 <= i < s.len() implies #[trigger] cs[i] == class_of(s[i]) by {}
    if exists|i: int| 0 <= i < s.len() && unicode_alphanumeric(#[trigger] s[i]) {
        let i = choose|i: int| 0 <= i < s.len() && unicode_alphanumeric(#[trigger] s[i]);
        assert(cs[i].alphanumeric);
    }
    if has_alphanumeric(cs) {
        let i = choose|i: int| 0 <= i < cs.len() && #[trigger] cs[i].alphanumeric;
        assert(unicode_alphanumeric(s[i]));
    }
    if exists|i: int| 0 <= i < s.len() && !unicode_alphanumeric(#[trigger] s[i]) {
        let i = choose|i: int| 0 <= i < s.len() && !unicode_alphanumeric(#[trigger] s[i]);
        assert(!cs[i].alphanumeric);
    }
    if has_non_alphanumeric(cs) {
        let i = choose|i: int| 0 <= i < cs.len() && !#[trigger] cs[i].alphanumeric;
        assert(!unicode_alphanumeric(s[i]));
    }
    if exists|i: int| 0 <= i < s.len() && unicode_whitespace(#[trigger] s[i]) {
        let i = choose|i: int| 0 <= i < s.len() && unicode_whitespace(#[trigger] s[i]);
        assert(cs[i].whitespace);
    }
    if has_whitespace(cs) {
        let i = choose|i: int| 0 <= i < cs.len() && #[trigger] cs[i].whitespace;
        assert(unicode_whitespace(s[i]));
    }
}

/// Credentials with a user name and a password pass the check exactly when
/// neither breaks a rule, and are otherwise refused with the user name and
/// every code broken, the user name's first; credentials that lack either
/// always pass.
pub proof fn lemma_verify_law(c: Credentials, r: Result<(), Error>)
    ensures
        c.username is None || c.password is None ==> (c.verify_answer(r) <==> r is Ok),
        c.username matches Some(u) ==> c.password matches Some(p) ==> (c.verify_answer(r) <==> if username_errors(u@).len() == 0
            && password_errors(p@).len() == 0 {
            r is Ok
        } else {
            r matches Err(Error::InvalidCredentials(n, codes)) && n@ == u@ && codes@ == username_errors(u@)
                + password_errors(p@)
        }),
{
}

/// Checking credentials lists the user name's codes first, then the
/// password's.
pub proof fn lemma_credential_codes_order(u: Seq<char>, p: Seq<char>)
    ensures
        credential_errors(u, p).len() == username_errors(u).len() + password_errors(p).len(),
        credential_errors(u, p).take(username_errors(u).len() as int) == username_errors(u),
        credential_errors(u, p).skip(username_errors(u).len() as int) == password_errors(p),
{
    let a = username_errors(u);
    let b = password_errors(p);
    assert((a + b).take(a.len() as int) == a);
    assert((a + b).skip(a.len() as int) == b);
}

/// A password is accepted exactly when it is at least 8 bytes long, holds a
/// letter or digit and a character that is neither, and no whitespace.
pub proof fn lemma_password_accepted(s: Seq<char>)
    ensures
        password_errors(s).len() == 0 <==> {
            &&& encode_utf8(s).len() >= 8
            &&& exists|i: int| 0 <= i < s.len() && unicode_alphanumeric(#[trigger] s[i])
            &&& exists|i: int| 0 <= i < s.len() && !unicode_alphanumeric(#[trigger] s[i])
            &&& forall|i: int| 0 <= i < s.len() ==> !unicode_whitespace(#[trigger] s[i])
        },
{
    let cs = classes_of(s);
    assert forall|i: int| 0 <= i < s.len() implies #[trigger] cs[i] == class_of(s[i]) by {}
    if exists|i: int| 0 <= i < s.len() && unicode_alphanumeric(#[trigger] s[i]) {
        let i = choose|i: int| 0 <= i < s.len() && unicode_alphanumeric(#[trigger] s[i]);
        assert(cs[i].alphanumeric);
    }
    if exists|i: int| 0 <= i < s.len() && !unicode_alphanumeric(#[trigger] s[i]) {
        let i = choose|i: int| 0 <= i < s.len() && !unicode_alphanumeric(#[trigger] s[i]);
        assert(!cs[i].alphanumeric);
    }
    if exists|i: int| 0 <= i < s.len() && unicode_whitespace(#[trigger] s[i]) {
        let i = choose|i: int| 0 <= i < s.len() && unicode_whitespace(#[trigger] s[i]);
        assert(cs[i].whitespace);
    }
}

} // verus!
