use rust_datastar_template::repo::auth::{
    found_record, login_step, password_rule_errors, session_token, signin_failure, signup_outcome,
    signup_step, username_rule_errors, verify_password, verify_username, Credentials, LoginAction,
    LoginEvent, SignupAction, SignupEvent,
};
use rust_datastar_template::repo::error::{DbFailure, Error};
use rust_datastar_template::text::CharClass;

#[test]
fn verify_usernames() {
    assert_ne!(verify_username("").len(), 0);
    assert_ne!(verify_username("a").len(), 0);
    assert_ne!(verify_username(&"a".repeat(33)).len(), 0);
    assert_ne!(verify_username("__").len(), 0);
    assert_ne!(verify_username("a__").len(), 0);
    assert_ne!(verify_username("__c").len(), 0);
    assert_ne!(verify_username("a_").len(), 0);
    assert_ne!(verify_username("_b").len(), 0);
    assert_eq!(verify_username("ab").len(), 0);
    assert_eq!(verify_username("a_b").len(), 0);
    assert_eq!(verify_username("a_b_c").len(), 0);
}

#[test]
fn verify_passwords() {
    assert_ne!(verify_password("").len(), 0);
    assert_ne!(verify_password("        ").len(), 0);
    assert_ne!(verify_password("abcdefgh").len(), 0);
    assert_ne!(verify_password("ABCDEFGH").len(), 0);
    assert_ne!(verify_password("12345678").len(), 0);
    assert_ne!(verify_password("++++++++").len(), 0);
    assert_eq!(verify_password("ABcd123+").len(), 0);
}

#[test]
fn username_codes_in_rule_order() {
    assert_eq!(
        verify_username(""),
        vec!["username_invalid_length", "username_invalid_characters", "username_invalid_format"]
    );
    assert_eq!(verify_username("a"), vec!["username_invalid_length"]);
    assert_eq!(verify_username("_b"), vec!["username_invalid_format"]);
    assert_eq!(verify_username("a b"), vec!["username_invalid_characters"]);
    assert_eq!(verify_username("a-b"), vec!["username_invalid_characters"]);
    assert_eq!(verify_username(&"a".repeat(32)).len(), 0);
}

#[test]
fn username_length_counts_bytes() {
    // 16 two-byte letters are 32 bytes; 17 are 34.
    assert_eq!(verify_username(&"é".repeat(16)).len(), 0);
    assert_eq!(verify_username(&"é".repeat(17)), vec!["username_invalid_length"]);
    assert_eq!(verify_username("名前").len(), 0);
}

#[test]
fn password_codes_in_rule_order() {
    assert_eq!(verify_password(""), vec!["password_invalid_length", "password_invalid_characters"]);
    assert_eq!(verify_password("ab+"), vec!["password_invalid_length"]);
    assert_eq!(verify_password("abcd efg+"), vec!["password_invalid_characters"]);
    assert_eq!(verify_password("abcdefg+").len(), 0);
}

#[test]
fn rule_functions_read_classes() {
    let word = CharClass { alphanumeric: true, whitespace: false, underscore: false };
    let under = CharClass { alphanumeric: false, whitespace: false, underscore: true };
    let space = CharClass { alphanumeric: false, whitespace: true, underscore: false };
    assert_eq!(username_rule_errors(3, &vec![word, under, word]).len(), 0);
    assert_eq!(username_rule_errors(3, &vec![under, word, under]), vec!["username_invalid_format"]);
    assert_eq!(username_rule_errors(40, &vec![word, word]), vec!["username_invalid_length"]);
    assert_eq!(password_rule_errors(8, &vec![word, space]), vec!["password_invalid_characters"]);
    assert_eq!(password_rule_errors(8, &vec![word, under]).len(), 0);
}

#[test]
fn credentials_verify() {
    let ok = Credentials::with_username_password("username".into(), "ABcd123+".into());
    assert!(ok.verify().is_ok());
    let bad = Credentials::with_username_password("a".into(), "a".into());
    match bad.verify() {
        Err(Error::InvalidCredentials(name, codes)) => {
            assert_eq!(name, "a");
            assert_eq!(codes, vec!["username_invalid_length", "password_invalid_length", "password_invalid_characters"]);
        }
        other => panic!("unexpected {:?}", other),
    }
    let token = Credentials::with_token("a".into());
    assert!(token.verify().is_ok());
    assert_eq!(token.token_str.as_deref(), Some("a"));
    let half = Credentials { username: Some("a".into()), password: None, token_str: None };
    assert!(half.verify().is_ok());
}

#[test]
fn signup_outcomes() {
    assert!(signup_outcome(Ok(())).is_ok());
    match signup_outcome(Err(DbFailure::IndexExists { index: "user_name".into(), value: "'bob'".into() })) {
        Err(Error::UsernameTaken(v)) => assert_eq!(v, "'bob'"),
        other => panic!("unexpected {:?}", other),
    }
    assert!(matches!(
        signup_outcome(Err(DbFailure::IndexExists { index: "email".into(), value: "x".into() })),
        Err(Error::ServiceUnavailable(_))
    ));
    assert!(matches!(signup_outcome(Err(DbFailure::Other)), Err(Error::ServiceUnavailable(_))));
}

#[test]
fn signin_and_session_outcomes() {
    assert!(matches!(signin_failure(DbFailure::NoRecordFound), Error::CredentialsInvalid));
    assert!(matches!(signin_failure(DbFailure::Other), Error::ServiceUnavailable(_)));
    assert_eq!(session_token(Some("tok".into())).unwrap(), "tok");
    assert!(matches!(session_token(None), Err(Error::CredentialsInvalid)));
    assert_eq!(found_record(Some(7)).unwrap(), 7);
    assert!(matches!(found_record::<u8>(None), Err(Error::NotFound)));
}

#[test]
fn account_error_text() {
    assert_eq!(Error::Surreal.to_string(), "Surreal");
    assert_eq!(Error::CredentialsInvalid.to_string(), "CredentialsInvalid");
    assert_eq!(Error::NotFound.to_string(), "NotFound");
    assert_eq!(Error::UsernameTaken("bob".to_string()).to_string(), "UsernameTaken(\"bob\")");
    assert_eq!(
        Error::InvalidCredentials("ab".to_string(), vec!["username_short", "password_symbol"]).to_string(),
        "InvalidCredentials(\"ab\", [\"username_short\", \"password_symbol\"])"
    );
    assert_eq!(
        Error::InvalidCredentials("x".to_string(), vec![]).to_string(),
        "InvalidCredentials(\"x\", [])"
    );
    let id: u128 = 0x67e5_5044_10b1_426f_9247_bb68_0e5f_e0c8;
    let e = Error::ServiceUnavailable(id);
    assert_eq!(e.to_string(), "ServiceUnavailable(67e55044-10b1-426f-9247-bb680e5fe0c8)");
    assert_eq!(
        Error::ServiceUnavailable(0xab).to_string(),
        "ServiceUnavailable(00000000-0000-0000-0000-0000000000ab)"
    );
    assert_eq!(
        e.to_string(),
        format!("ServiceUnavailable({:?})", uuid::Uuid::from_u128(id))
    );
    for e in [
        Error::UsernameTaken("qu\"ote".to_string()),
        Error::InvalidCredentials("é\t".to_string(), vec!["a"]),
    ] {
        assert_eq!(e.to_string(), format!("{e:?}"));
    }
}

#[test]
fn signup_steps() {
    let bad = Credentials::with_username_password("a".to_string(), "ABcd123+".to_string());
    match signup_step(&bad, SignupEvent::Requested) {
        SignupAction::Answer(Err(Error::InvalidCredentials(name, codes))) => {
            assert_eq!(name, "a");
            assert_eq!(codes, vec!["username_invalid_length"]);
        }
        _ => panic!("expected the rules to refuse the credentials"),
    }
    let good = Credentials::with_username_password("ab".to_string(), "ABcd123+".to_string());
    assert!(matches!(signup_step(&good, SignupEvent::Requested), SignupAction::PrepareSession));
    let token = Credentials::with_token("t".to_string());
    assert!(matches!(signup_step(&token, SignupEvent::Requested), SignupAction::PrepareSession));
    assert!(matches!(signup_step(&good, SignupEvent::SessionPrepared(Ok(()))), SignupAction::RunQuery));
    assert!(matches!(
        signup_step(&good, SignupEvent::SessionPrepared(Err(DbFailure::Other))),
        SignupAction::Answer(Err(Error::ServiceUnavailable(_)))
    ));
    assert!(matches!(signup_step(&good, SignupEvent::QueryChecked(Ok(()))), SignupAction::Answer(Ok(()))));
    match signup_step(
        &good,
        SignupEvent::QueryChecked(Err(DbFailure::IndexExists {
            index: "user_name".to_string(),
            value: "'ab'".to_string(),
        })),
    ) {
        SignupAction::Answer(Err(Error::UsernameTaken(v))) => assert_eq!(v, "'ab'"),
        _ => panic!("expected the name to be taken"),
    }
}

#[test]
fn login_steps() {
    assert!(matches!(login_step(LoginEvent::Requested), LoginAction::SignIn));
    assert!(matches!(login_step(LoginEvent::SignedIn(Ok(()))), LoginAction::CreateSession));
    assert!(matches!(
        login_step(LoginEvent::SignedIn(Err(DbFailure::NoRecordFound))),
        LoginAction::Answer(Err(Error::CredentialsInvalid))
    ));
    assert!(matches!(
        login_step(LoginEvent::SignedIn(Err(DbFailure::Other))),
        LoginAction::Answer(Err(Error::ServiceUnavailable(_)))
    ));
    assert!(matches!(
        login_step(LoginEvent::SessionCreated(Err(DbFailure::Other))),
        LoginAction::Answer(Err(Error::ServiceUnavailable(_)))
    ));
    assert!(matches!(
        login_step(LoginEvent::SessionCreated(Ok(None))),
        LoginAction::Answer(Err(Error::CredentialsInvalid))
    ));
    match login_step(LoginEvent::SessionCreated(Ok(Some("tok".to_string())))) {
        LoginAction::Answer(Ok(t)) => assert_eq!(t, "tok"),
        _ => panic!("expected the token"),
    }
}
