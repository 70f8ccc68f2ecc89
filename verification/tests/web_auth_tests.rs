use lumen::web_auth::{
    authorize_request, default_web_user, finish_authorization, parse_basic_auth, split_credentials,
    AuthStep,
};

fn pair(user: &str, password: &str) -> Option<(String, String)> {
    Some((user.to_string(), password.to_string()))
}

#[test]
fn basic_header_yields_user_and_password() {
    assert_eq!(parse_basic_auth("Basic dXNlcjpwYXNz"), pair("user", "pass"));
}

#[test]
fn credentials_are_cut_at_the_first_colon() {
    assert_eq!(parse_basic_auth("Basic dXNlcjpwYTpzcw=="), pair("user", "pa:ss"));
    assert_eq!(parse_basic_auth("Basic Og=="), pair("", ""));
}

#[test]
fn non_ascii_credentials_are_kept() {
    assert_eq!(parse_basic_auth("Basic w7xzZXI6cMOkc3N3w7ZyZA=="), pair("üser", "pässwörd"));
}

#[test]
fn other_schemes_and_bad_encodings_are_refused() {
    assert_eq!(parse_basic_auth("Bearer dXNlcjpwYXNz"), None);
    assert_eq!(parse_basic_auth("basic dXNlcjpwYXNz"), None);
    assert_eq!(parse_basic_auth("Basic"), None);
    assert_eq!(parse_basic_auth(""), None);
    assert_eq!(parse_basic_auth("Basic !!!!"), None);
    assert_eq!(parse_basic_auth("Basic bm9jb2xvbg=="), None);
    assert_eq!(parse_basic_auth("Basic /zpB"), None);
}

#[test]
fn auth_not_required_allows_everything() {
    assert_eq!(authorize_request(None, None), AuthStep::Allow);
    assert_eq!(authorize_request(Some(false), None), AuthStep::Allow);
    assert_eq!(authorize_request(Some(false), Some("garbage")), AuthStep::Allow);
}

#[test]
fn auth_required_without_credentials_is_rejected() {
    assert_eq!(authorize_request(Some(true), None), AuthStep::Reject);
    assert_eq!(authorize_request(Some(true), Some("Token abc")), AuthStep::Reject);
    assert_eq!(authorize_request(Some(true), Some("Basic bm9jb2xvbg==")), AuthStep::Reject);
}

#[test]
fn auth_required_with_credentials_asks_for_a_check() {
    assert_eq!(
        authorize_request(Some(true), Some("Basic dXNlcjpwYXNz")),
        AuthStep::Check { username: "user".to_string(), password: "pass".to_string() }
    );
}

#[test]
fn only_an_accepted_check_allows() {
    assert_eq!(finish_authorization(Some(true)), AuthStep::Allow);
    assert_eq!(finish_authorization(Some(false)), AuthStep::Reject);
    assert_eq!(finish_authorization(None), AuthStep::Reject);
}

#[test]
fn decoded_credentials_are_cut_at_the_first_colon() {
    assert_eq!(split_credentials(b"user:pa:ss".to_vec()), pair("user", "pa:ss"));
    assert_eq!(split_credentials(b":".to_vec()), pair("", ""));
    assert_eq!(split_credentials(b"nocolon".to_vec()), None);
    assert_eq!(split_credentials(vec![0xff, b':', b'a']), None);
    assert_eq!(split_credentials("ü:é".as_bytes().to_vec()), pair("ü", "é"));
}

#[test]
fn default_user_only_when_auth_is_required_and_nobody_exists() {
    assert_eq!(default_web_user(true, false), Some(("admin", "admin")));
    assert_eq!(default_web_user(true, true), None);
    assert_eq!(default_web_user(false, false), None);
    assert_eq!(default_web_user(false, true), None);
}
