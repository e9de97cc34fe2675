use phrustpam::config::{conf_text, parse_conf, update_conf, Conf, ConfError};

#[test]
fn reads_all_three_settings() {
    let c = parse_conf(&"url=http://127.0.0.1:1234\nusername=admin\npassword=se=cret\n".to_string()).unwrap();
    assert_eq!(c.url, "http://127.0.0.1:1234");
    assert_eq!(c.username, Some("admin".to_string()));
    assert_eq!(c.password, Some("se=cret".to_string()));
}

#[test]
fn missing_credentials_stay_unset() {
    let c = parse_conf(&"url=https://ipam.example\n".to_string()).unwrap();
    assert_eq!(c.url, "https://ipam.example");
    assert_eq!(c.username, None);
    assert_eq!(c.password, None);
}

#[test]
fn invalid_url_is_refused() {
    let r = parse_conf(&"username=a\nurl=not a url\n".to_string());
    assert!(matches!(r, Err(ConfError::InvalidUrl)));
}

#[test]
fn later_line_wins_and_unknown_keys_pass() {
    let c = parse_conf(&"username=a\r\ncolor=blue\r\nusername=b\r\nurl=http://h/\r\n".to_string()).unwrap();
    assert_eq!(c.username, Some("b".to_string()));
    assert_eq!(c.url, "http://h/");
}

#[test]
fn line_without_equals_has_empty_value() {
    let c = parse_conf(&"password\n".to_string()).unwrap();
    assert_eq!(c.password, Some(String::new()));
    assert_eq!(c.url, "");
}

#[test]
fn update_conf_uses_url_verdict() {
    let base = Conf { url: String::new(), username: None, password: None };
    let r = update_conf(base, "url", "x".to_string(), false);
    assert!(matches!(r, Err(ConfError::InvalidUrl)));
    let base = Conf { url: String::new(), username: None, password: None };
    let c = update_conf(base, "url", "x".to_string(), true).ok().unwrap();
    assert_eq!(c.url, "x");
}

#[test]
fn written_settings_read_back() {
    let text = conf_text("http://10.0.0.1:8080", &Some("me".to_string()), &None);
    assert_eq!(text, "url=http://10.0.0.1:8080\nusername=me\n");
    let c = parse_conf(&text).unwrap();
    assert_eq!(c.url, "http://10.0.0.1:8080");
    assert_eq!(c.username, Some("me".to_string()));
    assert_eq!(c.password, None);
}
