use thermal_printer::client::{auth_headers, print_url, reply_error, ApiKey};

#[test]
fn print_url_strips_trailing_slashes() {
    assert_eq!(print_url("http://magicmirror.lan"), "http://magicmirror.lan/print");
    assert_eq!(print_url("http://magicmirror.lan///"), "http://magicmirror.lan/print");
    assert_eq!(print_url(""), "/print");
}

#[test]
fn token_headers() {
    let key = ApiKey { client_id: "id".to_string(), client_secret: "s3".to_string() };
    assert_eq!(
        auth_headers(Some(&key)),
        vec![
            ("CF-Access-Client-Id".to_string(), "id".to_string()),
            ("CF-Access-Client-Secret".to_string(), "s3".to_string()),
        ]
    );
    assert!(auth_headers(None).is_empty());
}

#[test]
fn reply_errors() {
    assert_eq!(reply_error(true, "200 OK", ""), None);
    assert_eq!(
        reply_error(false, "401 Unauthorized", "no token"),
        Some("Server returned 401 Unauthorized: no token".to_string())
    );
}
