use rust_datastar_template::repo::error::Error;
use rust_datastar_template::web::guards::DatastarRequest;
use rust_datastar_template::web::{
    clean_translation, join_path, login_redirect_location, login_response,
    missing_translation_message, signup_response, trailing_slash_redirect, translation_path,
    with_watch_hook, AuthType, LoginResponse, SignupResponse,
};

#[test]
fn trailing_slashes_redirect() {
    assert_eq!(trailing_slash_redirect("/", None), None);
    assert_eq!(trailing_slash_redirect("/signup", Some("a=1")), None);
    assert_eq!(trailing_slash_redirect("/signup/", None).as_deref(), Some("/signup"));
    assert_eq!(trailing_slash_redirect("/a/b//", Some("x=1")).as_deref(), Some("/a/b?x=1"));
    assert_eq!(trailing_slash_redirect("//", None).as_deref(), Some(""));
}

#[test]
fn login_redirects_keep_target() {
    assert_eq!(login_redirect_location("/app"), "/login?redirect_to=/app");
    assert_eq!(login_redirect_location("///app?x=1"), "/login?redirect_to=/app?x=1");
    assert_eq!(login_redirect_location(""), "/login?redirect_to=/");
}

#[test]
fn signup_answers() {
    match signup_response(Ok(()), Some("//app"), false) {
        SignupResponse::Redirect { location } => assert_eq!(location, "/login?redirect_to=/app"),
        _ => panic!("expected a redirect"),
    }
    match signup_response(Ok(()), None, true) {
        SignupResponse::ScriptRedirect { href } => assert_eq!(href, "/login"),
        _ => panic!("expected a script redirect"),
    }
    match signup_response(Err(Error::UsernameTaken("'bob'".into())), None, false) {
        SignupResponse::Form { errors, username } => {
            assert_eq!(errors, vec!["username_already_taken"]);
            assert_eq!(username, "bob");
        }
        _ => panic!("expected the form"),
    }
    match signup_response(Err(Error::InvalidCredentials("a".into(), vec!["username_invalid_length"])), None, false) {
        SignupResponse::Form { errors, username } => {
            assert_eq!(errors, vec!["username_invalid_length"]);
            assert_eq!(username, "a");
        }
        _ => panic!("expected the form"),
    }
    match signup_response(Err(Error::Surreal), Some("/x"), true) {
        SignupResponse::Form { errors, username } => {
            assert_eq!(errors, vec!["something_went_wrong"]);
            assert_eq!(username, "");
        }
        _ => panic!("expected the form"),
    }
}

#[test]
fn login_answers() {
    match login_response(Ok("tok".into()), Some("/app"), false) {
        LoginResponse::Redirect { location, token } => {
            assert_eq!(location, "/app");
            assert_eq!(token, "tok");
        }
        _ => panic!("expected a redirect"),
    }
    match login_response(Ok("tok".into()), None, true) {
        LoginResponse::ScriptRedirect { href, token } => {
            assert_eq!(href, "/");
            assert_eq!(token, "tok");
        }
        _ => panic!("expected a script redirect"),
    }
    match login_response(Err(Error::CredentialsInvalid), None, false) {
        LoginResponse::Form { errors } => assert_eq!(errors, vec!["credentials_invalid"]),
        _ => panic!("expected the form"),
    }
    match login_response(Err(Error::NotFound), None, false) {
        LoginResponse::Form { errors } => assert_eq!(errors, vec!["something_went_wrong"]),
        _ => panic!("expected the form"),
    }
}

#[test]
fn datastar_header() {
    assert!(DatastarRequest::from_header_value(Some(&b"true"[..])).0);
    assert!(!DatastarRequest::from_header_value(Some(&b"TRUE"[..])).0);
    assert!(!DatastarRequest::from_header_value(Some(&b"true "[..])).0);
    assert!(!DatastarRequest::from_header_value(None).0);
}

#[test]
fn auth_type_names() {
    assert_eq!(AuthType::SignUp.name(), "signup");
    assert_eq!(AuthType::LogIn.name(), "login");
}

#[test]
fn translation_files() {
    assert_eq!(translation_path("/home/u", "en-GB", "title"), "/home/u/locales/en-GB/title.j2");
    assert_eq!(translation_path("/home/u/", "fr", "a"), "/home/u/locales/fr/a.j2");
    assert_eq!(translation_path("/home/u", "/etc", "a"), "/etc/a.j2");
    assert_eq!(join_path("", "x"), "x");
    assert_eq!(missing_translation_message("/p"), "/p does not exist");
}

#[test]
fn translations_are_cleaned() {
    assert_eq!(clean_translation("<b>ok</b><script>alert(1)</script>"), "<b>ok</b>");
    assert_eq!(clean_translation("plain"), "plain");
}

#[test]
fn watch_hook_in_body_tag() {
    assert_eq!(
        with_watch_hook("<html><body class=\"a\"></body>"),
        "<html><body data-on-load=\"@get('/.watch')\" class=\"a\"></body>"
    );
    assert_eq!(with_watch_hook("no body"), "no body");
}
