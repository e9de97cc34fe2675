use phrustpam::auth::{is_success, login_form, login_url, select_token, AuthError};

fn cookie(name: &str, value: &str) -> (String, String) {
    (name.to_string(), value.to_string())
}

#[test]
fn token_is_value_of_last_cookie() {
    let cookies = vec![cookie("a", "1"), cookie("session", "XYZ")];
    assert_eq!(select_token(200, &cookies), Ok("XYZ".to_string()));
}

#[test]
fn forbidden_status_is_rejected() {
    let cookies = vec![cookie("a", "1"), cookie("session", "XYZ")];
    assert_eq!(select_token(403, &cookies), Err(AuthError::Rejected));
}

#[test]
fn success_without_cookie_is_missing_cookie() {
    assert_eq!(select_token(200, &Vec::new()), Err(AuthError::MissingCookie));
}

#[test]
fn success_class_bounds() {
    assert!(!is_success(199));
    assert!(is_success(200));
    assert!(is_success(299));
    assert!(!is_success(300));
    assert_eq!(select_token(302, &vec![cookie("s", "t")]), Err(AuthError::Rejected));
}

#[test]
fn login_url_appends_login_path() {
    assert_eq!(login_url("http://127.0.0.1:1234"), "http://127.0.0.1:1234/app/login/login_check.php");
}

#[test]
fn login_form_fields() {
    let f = login_form("admin".to_string(), "pw=1".to_string());
    assert_eq!(
        f,
        vec![
            cookie("ipamusername", "admin"),
            cookie("ipampassword", "pw=1"),
            cookie("phpipamredirect", "/"),
        ]
    );
}
