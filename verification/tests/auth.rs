use tailcall::auth::base::{AuthError, AuthProvider};
use tailcall::auth::jwt::validation::{validate_aud, validate_iss, Claims, OneOrMany};
use tailcall::blueprint::auth::{
    AuthProvider as ProviderSettings, BasicProvider as BasicSettings, JwtProvider,
};

#[test]
fn validate_iss_not_defined() {
    let options = JwtProvider::test_value();
    let mut claims = Claims::default();

    assert!(validate_iss(&options, &claims));

    claims.iss = Some("iss".to_owned());

    assert!(validate_iss(&options, &claims));
}

#[test]
fn validate_iss_defined() {
    let options = JwtProvider { issuer: Some("iss".to_owned()), ..JwtProvider::test_value() };
    let mut claims = Claims::default();

    assert!(!validate_iss(&options, &claims));

    claims.iss = Some("wrong".to_owned());

    assert!(!validate_iss(&options, &claims));

    claims.iss = Some("iss".to_owned());

    assert!(validate_iss(&options, &claims));
}

#[test]
fn validate_aud_not_defined() {
    let options = JwtProvider::test_value();
    let mut claims = Claims::default();

    assert!(validate_aud(&options, &claims));

    claims.aud = OneOrMany::One("aud".to_owned());

    assert!(validate_aud(&options, &claims));

    claims.aud = OneOrMany::Vec(vec!["aud1".to_owned(), "aud2".to_owned()]);

    assert!(validate_aud(&options, &claims));
}

#[test]
fn validate_aud_defined() {
    let options = JwtProvider {
        audiences: vec!["aud1".to_owned(), "aud2".to_owned()],
        ..JwtProvider::test_value()
    };
    let mut claims = Claims::default();

    assert!(!validate_aud(&options, &claims));

    claims.aud = OneOrMany::One("wrong".to_owned());

    assert!(!validate_aud(&options, &claims));

    claims.aud = OneOrMany::One("aud1".to_owned());

    assert!(validate_aud(&options, &claims));

    claims.aud = OneOrMany::Vec(vec!["aud1".to_owned(), "aud5".to_owned()]);

    assert!(validate_aud(&options, &claims));
}

#[test]
fn one_audience_counts_as_a_list_of_one() {
    let options =
        JwtProvider { audiences: vec!["a".to_owned()], ..JwtProvider::test_value() };
    for (aud, expected) in [("a", true), ("b", false)] {
        let one = Claims { iss: None, aud: OneOrMany::One(aud.to_owned()) };
        let list = Claims { iss: None, aud: OneOrMany::Vec(vec![aud.to_owned()]) };
        assert_eq!(validate_aud(&options, &one), expected);
        assert_eq!(validate_aud(&options, &list), expected);
    }
}

#[test]
fn more_audiences_keep_a_token_accepted() {
    let options =
        JwtProvider { audiences: vec!["a".to_owned()], ..JwtProvider::test_value() };
    let few = Claims { iss: None, aud: OneOrMany::Vec(vec!["a".to_owned()]) };
    let many =
        Claims { iss: None, aud: OneOrMany::Vec(vec!["z".to_owned(), "a".to_owned()]) };
    assert!(validate_aud(&options, &few));
    assert!(validate_aud(&options, &many));
}

#[test]
fn auth_errors_have_messages() {
    assert_eq!(AuthError::Missing.to_string(), "Haven't found auth parameters");
    assert_eq!(AuthError::ValidationCheckFailed.to_string(), "Couldn't validate auth request");
    assert_eq!(AuthError::Invalid.to_string(), "Auth validation failed");
    assert!(AuthError::Missing < AuthError::Invalid);
}

#[test]
fn provider_follows_its_settings() {
    let basic = ProviderSettings::Basic(BasicSettings { htpasswd: "u:p".to_owned() });
    match AuthProvider::from_config(basic, 7u8) {
        AuthProvider::Basic(provider) => assert_eq!(provider.options.htpasswd, "u:p"),
        AuthProvider::Jwt(_) => panic!("expected the basic provider"),
    }
    let jwt = ProviderSettings::Jwt(JwtProvider {
        issuer: Some("iss".to_owned()),
        ..JwtProvider::test_value()
    });
    match AuthProvider::from_config(jwt, 7u8) {
        AuthProvider::Basic(_) => panic!("expected the provider for tokens"),
        AuthProvider::Jwt(provider) => {
            assert_eq!(provider.options.issuer, Some("iss".to_owned()));
            assert_eq!(provider.client, 7);
        }
    }
}
