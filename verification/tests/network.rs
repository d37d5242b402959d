use cf_picker::net::{download_status, format_error_text, referer_for, request_host, Client};
use cf_picker::text::decimal_string;
use cf_picker::traits::NetworkError;

#[test]
fn error_messages() {
    assert_eq!(NetworkError::Timeout.message(), "请求超时");
    assert_eq!(NetworkError::ConnectionFailed("refused".to_string()).message(), "连接失败: refused");
    assert_eq!(NetworkError::HttpStatus(404).message(), "HTTP 状态码错误: 404");
    assert_eq!(NetworkError::HttpStatus(0).message(), "HTTP 状态码错误: 0");
    assert_eq!(NetworkError::Other("boom".to_string()).message(), "boom");
}

#[test]
fn decimal_numbers() {
    assert_eq!(decimal_string(0), "0");
    assert_eq!(decimal_string(7), "7");
    assert_eq!(decimal_string(65535), "65535");
    assert_eq!(decimal_string(u64::MAX), u64::MAX.to_string());
}

#[test]
fn referer_is_the_origin() {
    assert_eq!(
        referer_for("https://speed.cloudflare.com/__down?bytes=500000000"),
        "https://speed.cloudflare.com/"
    );
    assert_eq!(referer_for("https://a.example:8443/x/y"), "https://a.example:8443/");
}

#[test]
fn referer_falls_back_to_the_url() {
    assert_eq!(referer_for("not a url"), "not a url");
    assert_eq!(referer_for("data:text/plain,hi"), "data:text/plain,hi");
}

#[test]
fn timeouts_are_worded_briefly() {
    assert_eq!(format_error_text(true, "anything", &vec!["cause".to_string()]), "超时");
}

#[test]
fn error_text_drops_the_client_prefix_and_adds_causes() {
    let causes = vec![
        "client error (Connect)".to_string(),
        "tcp connect error".to_string(),
        "Connection refused (os error 111)".to_string(),
    ];
    assert_eq!(
        format_error_text(
            false,
            "error sending request for url (https://x/): client error (Connect): tcp connect error",
            &causes
        ),
        "tcp connect error: client error (Connect): Connection refused (os error 111)"
    );
}

#[test]
fn error_text_without_markers_is_kept() {
    assert_eq!(format_error_text(false, "plain failure", &vec![]), "plain failure");
    assert_eq!(format_error_text(false, "client error: bad", &vec!["bad".to_string()]), "bad");
    assert_eq!(format_error_text(false, "x", &vec!["".to_string()]), "x");
}

#[test]
fn request_host_of_a_url() {
    assert_eq!(
        request_host("https://speed.cloudflare.com/__down?bytes=500000000").ok(),
        Some("speed.cloudflare.com".to_string())
    );
    assert_eq!(request_host("http://1.2.3.4:8080/x").ok(), Some("1.2.3.4".to_string()));
}

#[test]
fn request_host_errors() {
    match request_host("speed.cloudflare.com/x") {
        Err(NetworkError::Other(m)) => assert_eq!(m, "Invalid URL: relative URL without a base"),
        other => panic!("unexpected {:?}", other),
    }
    match request_host("data:text/plain,hi") {
        Err(NetworkError::Other(m)) => assert_eq!(m, "Invalid URL: missing host"),
        other => panic!("unexpected {:?}", other),
    }
}

#[test]
fn download_status_accepts_only_success() {
    assert!(download_status(200).is_ok());
    assert!(download_status(204).is_ok());
    assert!(download_status(299).is_ok());
    assert!(matches!(download_status(199), Err(NetworkError::HttpStatus(199))));
    assert!(matches!(download_status(301), Err(NetworkError::HttpStatus(301))));
    assert!(matches!(download_status(404), Err(NetworkError::HttpStatus(404))));
}

#[test]
fn client_is_stateless() {
    let a = Client::new();
    let b = Client::default();
    assert_eq!(format!("{:?}", a), format!("{:?}", b));
}
