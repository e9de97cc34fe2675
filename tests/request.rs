use phrustpam::request::{search_cookie_header, search_params, search_url};

#[test]
fn search_url_appends_index() {
    assert_eq!(search_url("https://ipam.example"), "https://ipam.example/index.php");
}

#[test]
fn search_params_select_search_view() {
    let p = search_params("10.0.0");
    assert_eq!(
        p,
        vec![
            ("page".to_string(), "tools".to_string()),
            ("section".to_string(), "search".to_string()),
            ("ip".to_string(), "10.0.0".to_string()),
        ]
    );
}

#[test]
fn cookie_header_carries_token_first() {
    let h = search_cookie_header("abc123");
    assert!(h.starts_with("phpipam=abc123; table-page-size=50; search_parameters="));
    assert!(h.ends_with("%22customers%22%3A%22off%22%7D"));
    assert!(h.contains("%22vrf%22%3A%22off%22"));
}
