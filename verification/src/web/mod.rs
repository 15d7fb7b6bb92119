//! Redirects, form outcomes and translation lookups of the account pages.

pub mod guards;

use vstd::prelude::*;

use crate::repo::error::Error;
use crate::text::{
    has_suffix, lemma_trim_end_char_shape, lemma_trim_start_char_shape, lemma_trim_start_char_skip, replace_all, replace_all_str, str_eq,
    trim_end_char, trim_end_matches_char,
    trim_matches_char, trim_start_char, trim_start_matches_char,
};

verus! {

/// Name of the cookie that holds the session token.
pub const SESSION_COOKIE_NAME: &'static str = "session";

/// Locale of the pages when the request names none.
pub const DEFAULT_LOCALE: &'static str = "en-GB";

/// Code shown when a sign-up names a user that exists.
pub const USERNAME_ALREADY_TAKEN: &'static str = "username_already_taken";

/// Code shown when a log-in is refused.
pub const CREDENTIALS_INVALID: &'static str = "credentials_invalid";

/// Code shown when a backing service fails.
pub const SOMETHING_WENT_WRONG: &'static str = "something_went_wrong";

/// Which form an account page shows.
#[derive(Clone, Copy, Debug, PartialEq, Eq)]
pub enum AuthType {
    SignUp,
    LogIn,
}

impl AuthType {
    /// The name the templates know the form by.
    pub fn name(&self) -> (r: &'static str)
        ensures
            r@ == (match self {
                AuthType::SignUp => "signup"@,
                AuthType::LogIn => "login"@,
            }),
    {
        match self {
            AuthType::SignUp => "signup",
            AuthType::LogIn => "login",
        }
    }
}

/// `"/"`.
pub open spec fn slash() -> Seq<char> {
    seq!['/']
}

/// Where a request for `path` is sent instead: a path that ends in `/`, other
/// than `/` itself, loses its trailing slashes and keeps its query.
pub open spec fn trailing_slash_target(path: Seq<char>, query: Option<Seq<char>>) -> Option<Seq<char>> {
    if has_suffix(path, slash()) && path != slash() {
        Some(
            trim_end_char(path, '/') + match query {
                Some(q) => seq!['?'] + q,
                None => Seq::empty(),
            },
        )
    } else {
        None
    }
}

/// The redirect for a request path, if it ends in a slash.
pub fn trailing_slash_redirect(path: &str, query: Option<&str>) -> (r: Option<String>)
    ensures
        match r {
            Some(s) => trailing_slash_target(path@, match query { Some(q) => Some(q@), None => None }) == Some(s@),
            None => trailing_slash_target(path@, match query { Some(q) => Some(q@), None => None }) is None,
        },
{
    let v = crate::text::chars_of(path);
    let sl = crate::text::chars_of("/");
    proof {
        reveal_strlit("/");
    }
    assert(sl@ == slash());
    let is_root = str_eq(path, "/");
    if crate::text::ends_with(&v, &sl) && !is_root {
        let mut target = trim_end_matches_char(path, '/');
        match query {
            Some(q) => {
                crate::text::push_char(&mut target, '?');
                let ghost before = target@;
                target.append(q);
                assert(target@ == before + q@);
            },
            None => {},
        }
        Some(target)
    } else {
        None
    }
}

/// Where an unauthenticated request for `uri` is sent: the log-in page, told
/// to come back to `uri` with a single leading slash.
pub open spec fn login_location(uri: Seq<char>) -> Seq<char> {
    "/login?redirect_to=/"@ + trim_start_char(uri, '/')
}

/// The log-in redirect for an unauthenticated request for `uri`.
pub fn login_redirect_location(uri: &str) -> (r: String)
    ensures
        r@ == login_location(uri@),
{
    let mut r = String::from_str("/login?redirect_to=/");
    let rest = trim_start_matches_char(uri, '/');
    r.append(rest.as_str());
    r
}

/// Where a successful sign-up sends the user: the log-in page, carrying on the
/// page to return to where there is one.
pub open spec fn signup_next(redirect_to: Option<Seq<char>>) -> Seq<char> {
    "/login"@ + match redirect_to {
        Some(u) => "?redirect_to=/"@ + trim_start_char(u, '/'),
        None => Seq::empty(),
    }
}

/// Where a successful log-in sends the user: the page to return to, with a
/// single leading slash, or the home page.
pub open spec fn login_next(redirect_to: Option<Seq<char>>) -> Seq<char> {
    "/"@ + match redirect_to {
        Some(u) => trim_start_char(u, '/'),
        None => Seq::empty(),
    }
}

/// The view of an optional string.
pub open spec fn opt_view(s: Option<&str>) -> Option<Seq<char>> {
    match s {
        Some(x) => Some(x@),
        None => None,
    }
}

/// The answer to a sign-up form.
pub enum SignupResponse {
    /// The form again, with the codes of what went wrong and the user name.
    Form { errors: Vec<&'static str>, username: String },
    /// A redirect to `location`.
    Redirect { location: String },
    /// A script that sends a datastar client to `href`.
    ScriptRedirect { href: String },
}

/// The answer to a log-in form.
pub enum LoginResponse {
    /// The form again, with the codes of what went wrong.
    Form { errors: Vec<&'static str> },
    /// A redirect to `location`, setting the session cookie to `token`.
    Redirect { location: String, token: String },
    /// A script that sends a datastar client to `href`, setting the session
    /// cookie to `token`.
    ScriptRedirect { href: String, token: String },
}

/// The redirect target after sign-up.
fn signup_next_location(redirect_to: Option<&str>) -> (r: String)
    ensures
        r@ == signup_next(opt_view(redirect_to)),
{
    let mut r = String::from_str("/login");
    match redirect_to {
        Some(u) => {
            r.append("?redirect_to=/");
            let rest = trim_start_matches_char(u, '/');
            r.append(rest.as_str());
        },
        None => {},
    }
    r
}

/// The redirect target after log-in.
fn login_next_location(redirect_to: Option<&str>) -> (r: String)
    ensures
        r@ == login_next(opt_view(redirect_to)),
{
    let mut r = String::from_str("/");
    match redirect_to {
        Some(u) => {
            let rest = trim_start_matches_char(u, '/');
            r.append(rest.as_str());
        },
        None => {},
    }
    r
}

/// A user name as the sign-up form shows it again: without surrounding quotes.
pub open spec fn shown_username(u: Seq<char>) -> Seq<char> {
    trim_end_char(trim_start_char(u, '\''), '\'')
}

/// The answer to a sign-up form, from the outcome of the sign-up, the page to
/// return to, and whether datastar sent the form.
pub fn signup_response(result: Result<(), Error>, redirect_to: Option<&str>, datastar: bool) -> (r: SignupResponse)
    ensures
        match result {
            Err(Error::UsernameTaken(u)) => r matches SignupResponse::Form { errors, username }
                && errors@ == seq![USERNAME_ALREADY_TAKEN] && username@ == shown_username(u@),
            Err(Error::InvalidCredentials(u, codes)) => r matches SignupResponse::Form { errors, username }
                && errors@ == codes@ && username@ == shown_username(u@),
            Err(_) => r matches SignupResponse::Form { errors, username }
                && errors@ == seq![SOMETHING_WENT_WRONG] && username@.len() == 0,
            Ok(()) => if datastar {
                r matches SignupResponse::ScriptRedirect { href } && href@ == signup_next(opt_view(redirect_to))
            } else {
                r matches SignupResponse::Redirect { location } && location@ == signup_next(opt_view(redirect_to))
            },
        },
{
    match result {
        Err(Error::UsernameTaken(u)) => {
            let mut errors: Vec<&'static str> = Vec::new();
            errors.push(USERNAME_ALREADY_TAKEN);
            SignupResponse::Form { errors, username: trim_matches_char(u.as_str(), '\'') }
        },
        Err(Error::InvalidCredentials(u, codes)) => {
            SignupResponse::Form { errors: codes, username: trim_matches_char(u.as_str(), '\'') }
        },
        Err(_) => {
            let mut errors: Vec<&'static str> = Vec::new();
            errors.push(SOMETHING_WENT_WRONG);
            SignupResponse::Form { errors, username: String::new() }
        },
        Ok(()) => {
            let next = signup_next_location(redirect_to);
            if datastar {
                SignupResponse::ScriptRedirect { href: next }
            } else {
                SignupResponse::Redirect { location: next }
            }
        },
    }
}

/// The answer to a log-in form, from the outcome of the log-in (the session
/// token), the page to return to, and whether datastar sent the form.
pub fn login_response(result: Result<String, Error>, redirect_to: Option<&str>, datastar: bool) -> (r: LoginResponse)
    ensures
        match result {
            Err(Error::CredentialsInvalid) => r matches LoginResponse::Form { errors }
                && errors@ == seq![CREDENTIALS_INVALID],
            Err(_) => r matches LoginResponse::Form { errors } && errors@ == seq![SOMETHING_WENT_WRONG],
            Ok(t) => if datastar {
                r matches LoginResponse::ScriptRedirect { href, token } && href@ == login_next(opt_view(redirect_to))
                    && token == t
            } else {
                r matches LoginResponse::Redirect { location, token } && location@ == login_next(opt_view(redirect_to))
                    && token == t
            },
        },
{
    match result {
        Err(Error::CredentialsInvalid) => {
            let mut errors: Vec<&'static str> = Vec::new();
            errors.push(CREDENTIALS_INVALID);
            LoginResponse::Form { errors }
        },
        Err(_) => {
            let mut errors: Vec<&'static str> = Vec::new();
            errors.push(SOMETHING_WENT_WRONG);
            LoginResponse::Form { errors }
        },
        Ok(token) => {
            let next = login_next_location(redirect_to);
            if datastar {
                LoginResponse::ScriptRedirect { href: next, token }
            } else {
                LoginResponse::Redirect { location: next, token }
            }
        },
    }
}

/// `base` joined with `p` as a path: an absolute `p` replaces `base`, and a
/// slash separates the two where `base` is not empty and does not end in one.
pub open spec fn path_join(base: Seq<char>, p: Seq<char>) -> Seq<char> {
    if p.len() > 0 && p[0] == '/' {
        p
    } else if base.len() == 0 || base.last() == '/' {
        base + p
    } else {
        base + slash() + p
    }
}

/// Joins `p` onto `base` as a path.
pub fn join_path(base: &str, p: &str) -> (r: String)
    ensures
        r@ == path_join(base@, p@),
{
    let pv = crate::text::chars_of(p);
    let bv = crate::text::chars_of(base);
    if pv.len() > 0 && pv[0] == '/' {
        return String::from_str(p);
    }
    let mut r = String::from_str(base);
    if !(bv.len() == 0 || bv[bv.len() - 1] == '/') {
        crate::text::push_char(&mut r, '/');
    }
    r.append(p);
    r
}

/// The file that holds the translation `key` for `locale`, under the working
/// directory `pwd`.
pub open spec fn translation_file(pwd: Seq<char>, locale: Seq<char>, key: Seq<char>) -> Seq<char> {
    path_join(path_join(path_join(pwd, "locales"@), locale), key + ".j2"@)
}

/// The file that holds the translation `key` for `locale`.
pub fn translation_path(pwd: &str, locale: &str, key: &str) -> (r: String)
    ensures
        r@ == translation_file(pwd@, locale@, key@),
{
    let a = join_path(pwd, "locales");
    let b = join_path(a.as_str(), locale);
    let mut file = String::from_str(key);
    file.append(".j2");
    join_path(b.as_str(), file.as_str())
}

/// The message of a lookup of a translation file that does not exist.
pub fn missing_translation_message(path: &str) -> (r: String)
    ensures
        r@ == path@ + " does not exist"@,
{
    let mut r = String::from_str(path);
    r.append(" does not exist");
    r
}

/// What cleaning HTML with the `ammonia` crate's default policy gives for `html`.
pub uninterp spec fn ammonia_cleaned(html: Seq<char>) -> Seq<char>;

/// Calls `ammonia::clean`, which keeps the markup of `html` that its default
/// policy allows. Claimed: the result depends on `html` alone.
#[verifier::external_body]
fn ammonia_clean(html: &str) -> (r: String)
    ensures
        r@ == ammonia_cleaned(html@),
{
    ammonia::clean(html)
}

/// A translation template as it may be rendered: cleaned of markup that the
/// sanitizer refuses.
pub fn clean_translation(template: &str) -> (r: String)
    ensures
        r@ == ammonia_cleaned(template@),
{
    ammonia_clean(template)
}

/// The base layout with the development watcher hooked into its body tag.
pub open spec fn watched_layout(base: Seq<char>) -> Seq<char> {
    replace_all(base, "<body"@, "<body data-on-load=\"@get('/.watch')\""@)
}

/// Hooks the development watcher into the body tag of the base layout.
pub fn with_watch_hook(base: &str) -> (r: String)
    ensures
        r@ == watched_layout(base@),
{
    replace_all_str(base, "<body", "<body data-on-load=\"@get('/.watch')\"")
}

} // verus!

verus! {

/// A path of two or more characters that ends in `/` is redirected, and no
/// other: to the path without its trailing slashes, followed by `?` and the
/// whole query where there is one, whatever characters it holds.
pub proof fn lemma_trailing_slash_law(path: Seq<char>, query: Option<Seq<char>>)
    ensures
        trailing_slash_target(path, query) is Some <==> path.len() >= 2 && path.last() == '/',
        trailing_slash_target(path, query) matches Some(t) ==> t == match query {
            Some(q) => trim_end_char(path, '/') + seq!['?'] + q,
            None => trim_end_char(path, '/'),
        },
{
    if path.len() >= 1 {
        assert(path.skip(path.len() - 1)[0] == path.last());
        if path.last() == '/' {
            assert(path.skip(path.len() - 1) == seq!['/']);
        }
        if path.len() == 1 && path.last() == '/' {
            assert(path == seq!['/']);
        }
    }
    match query {
        Some(q) => {
            assert(trim_end_char(path, '/') + (seq!['?'] + q) == trim_end_char(path, '/') + seq!['?'] + q);
        },
        None => {
            assert(trim_end_char(path, '/') + Seq::<char>::empty() == trim_end_char(path, '/'));
        },
    }
}

/// An unauthenticated request for `uri` is sent to
/// `/login?redirect_to=/` followed by `uri` without its leading slashes.
pub proof fn lemma_login_location_law(uri: Seq<char>) -> (a: int)
    ensures
        0 <= a <= uri.len(),
        forall|i: int| 0 <= i < a ==> #[trigger] uri[i] == '/',
        a < uri.len() ==> uri[a] != '/',
        login_location(uri) == "/login?redirect_to=/"@ + uri.skip(a),
{
    lemma_trim_start_char_skip(uri, '/')
}

/// After a log-in the user goes to `/` followed by the page to return to
/// without its leading slashes, or to `/` where there is none; after a
/// sign-up, to `/login`, or to where a request for the page to return to is
/// sent to log in.
pub proof fn lemma_next_pages_law(u: Seq<char>) -> (a: int)
    ensures
        0 <= a <= u.len(),
        forall|i: int| 0 <= i < a ==> #[trigger] u[i] == '/',
        a < u.len() ==> u[a] != '/',
        login_next(Some(u)) == "/"@ + u.skip(a),
        login_next(None) == "/"@,
        signup_next(Some(u)) == "/login?redirect_to=/"@ + u.skip(a),
        signup_next(None) == "/login"@,
{
    let a = lemma_trim_start_char_skip(u, '/');
    lemma_signup_leads_to_login(u);
    assert("/"@ + Seq::<char>::empty() == "/"@);
    assert("/login"@ + Seq::<char>::empty() == "/login"@);
    a
}

/// The sign-up form shows a taken user name without the quotes around it:
/// the name from its first to its last character other than `'`.
pub proof fn lemma_shown_username_law(u: Seq<char>) -> (r: (int, int))
    ensures
        0 <= r.0 <= r.1 <= u.len(),
        shown_username(u) == u.subrange(r.0, r.1),
        forall|i: int| 0 <= i < r.0 ==> #[trigger] u[i] == '\'',
        forall|i: int| r.1 <= i < u.len() ==> #[trigger] u[i] == '\'',
        r.0 < r.1 ==> u[r.0] != '\'' && u[r.1 - 1] != '\'',
{
    let a = lemma_trim_start_char_skip(u, '\'');
    let t = u.skip(a);
    let b = crate::text::lemma_trim_end_char_take(t, '\'');
    assert(t.take(b) == u.subrange(a, a + b));
    assert forall|i: int| a + b <= i < u.len() implies #[trigger] u[i] == '\'' by {
        assert(u[i] == t[i - a]);
    }
    if b > 0 {
        assert(u[a] == t[0]);
        assert(u[a + b - 1] == t[b - 1]);
    }
    (a, a + b)
}

/// Joining a path `p` that starts with `/` gives `p`; joining another onto a
/// base gives the base, a slash where the base is not empty and does not end
/// in one, and `p`.
pub proof fn lemma_path_join_law(base: Seq<char>, p: Seq<char>)
    ensures
        p.len() > 0 && p[0] == '/' ==> path_join(base, p) == p,
        !(p.len() > 0 && p[0] == '/') && base.len() > 0 && base.last() != '/' ==> path_join(base, p) == base
            + seq!['/'] + p,
        !(p.len() > 0 && p[0] == '/') && (base.len() == 0 || base.last() == '/') ==> path_join(base, p) == base + p,
{
}

/// The translation `key` for `locale` lies in `<pwd>/locales/<locale>/<key>.j2`
/// for a working directory that does not end in a slash and a locale and key
/// that are plain names.
pub proof fn lemma_translation_file_law(pwd: Seq<char>, locale: Seq<char>, key: Seq<char>)
    requires
        pwd.len() > 0 && pwd.last() != '/',
        locale.len() > 0 && locale[0] != '/' && locale.last() != '/',
        key.len() > 0 && key[0] != '/',
    ensures
        translation_file(pwd, locale, key) == pwd + "/locales/"@ + locale + seq!['/'] + key + ".j2"@,
{
    reveal_strlit("locales");
    reveal_strlit("/locales/");
    reveal_strlit(".j2");
    let a = pwd + seq!['/'] + "locales"@;
    assert(path_join(pwd, "locales"@) == a);
    assert(a.last() == 's');
    let b = a + seq!['/'] + locale;
    assert(path_join(a, locale) == b);
    assert(b.last() == locale.last());
    let f = key + ".j2"@;
    assert(f[0] == key[0]);
    assert(path_join(b, f) == b + seq!['/'] + f);
    assert("/locales/"@ == seq!['/'] + "locales"@ + seq!['/']);
    assert(b + seq!['/'] + f == pwd + "/locales/"@ + locale + seq!['/'] + key + ".j2"@);
}

/// The redirect for a path with trailing slashes leads to a path that is not
/// redirected again.
pub proof fn lemma_trailing_slash_settles(path: Seq<char>, query: Option<Seq<char>>)
    ensures
        trailing_slash_target(path, query) is Some ==> trailing_slash_target(trim_end_char(path, '/'), query) is None,
{
    let t = trim_end_char(path, '/');
    lemma_trim_end_char_shape(path, '/');
    if t.len() > 0 {
        if has_suffix(t, slash()) {
            assert(t.skip(t.len() - 1)[0] == t.last());
        }
    }
}

/// The page that sends an unauthenticated visitor to log in, and the log-in
/// that follows, bring the visitor back to the page asked for, with a single
/// leading slash.
pub proof fn lemma_login_round_trip(uri: Seq<char>)
    ensures
        login_location(uri) == "/login?redirect_to="@ + login_next(Some("/"@ + trim_start_char(uri, '/'))),
        login_next(Some("/"@ + trim_start_char(uri, '/'))) == "/"@ + trim_start_char(uri, '/'),
{
    reveal_strlit("/login?redirect_to=/");
    reveal_strlit("/login?redirect_to=");
    reveal_strlit("/");
    let t = trim_start_char(uri, '/');
    lemma_trim_start_char_shape(uri, '/');
    assert("/"@ == seq!['/']);
    let s = "/"@ + t;
    assert(s[0] == '/');
    assert(s.drop_first() == t);
    assert(trim_start_char(s, '/') == trim_start_char(t, '/'));
    if t.len() > 0 {
        assert(t[0] != '/');
    }
    assert(trim_start_char(t, '/') == t);
    assert(login_next(Some(s)) == "/"@ + t);
    assert("/login?redirect_to=/"@ == "/login?redirect_to="@ + "/"@);
    assert(login_location(uri) == "/login?redirect_to="@ + ("/"@ + t));
}

/// A sign-up sends the user to the same log-in page, carrying the same page to
/// return to, as a request that needs a log-in does.
pub proof fn lemma_signup_leads_to_login(redirect_to: Seq<char>)
    ensures
        signup_next(Some(redirect_to)) == login_location(redirect_to),
{
    reveal_strlit("/login?redirect_to=/");
    reveal_strlit("/login");
    reveal_strlit("?redirect_to=/");
    assert("/login"@ + "?redirect_to=/"@ == "/login?redirect_to=/"@);
}

} // verus!

verus! {

/// A layout with one body tag, and no other `<`, gets the watcher hooked into
/// that tag, and the rest is kept as it is.
pub proof fn lemma_watch_hook_in_body(pre: Seq<char>, post: Seq<char>)
    requires
        forall|i: int| 0 <= i < pre.len() ==> pre[i] != '<',
        forall|i: int| 0 <= i < post.len() ==> post[i] != '<',
    ensures
        watched_layout(pre + "<body"@ + post) == pre + "<body data-on-load=\"@get('/.watch')\""@ + post,
{
    let to = "<body data-on-load=\"@get('/.watch')\""@;
    let from = "<body"@;
    reveal_strlit("<body");
    assert(from[0] == '<');
    assert(pre + from + post == pre + (from + post));
    crate::text::lemma_replace_all_plain_front(pre, from + post, from, to);
    crate::text::lemma_replace_all_at_front(post, from, to);
    crate::text::lemma_replace_all_plain_front(post, Seq::empty(), from, to);
    assert(post + Seq::<char>::empty() == post);
    assert(replace_all(Seq::<char>::empty(), from, to) == Seq::<char>::empty());
    assert(pre + (to + post) == pre + to + post);
}

/// A layout without a body tag is served as it is.
pub proof fn lemma_layout_without_body_unchanged(base: Seq<char>)
    requires
        forall|i: int| 0 <= i < base.len() ==> !#[trigger] crate::text::occurs_at(base, i, "<body"@),
    ensures
        watched_layout(base) == base,
{
    crate::text::lemma_replace_all_absent(base, "<body"@, "<body data-on-load=\"@get('/.watch')\""@);
}

} // verus!
