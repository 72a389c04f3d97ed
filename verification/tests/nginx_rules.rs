use bowbend_core::{
    parse_nginx_server_header, BasicHttpGetProbeResult, NginxDetectionRule,
    ServiceDetectionCertainty,
};

#[test]
fn test_parsing_header() {
    assert_eq!(
        parse_nginx_server_header("nginx/1.18.0 (Ubuntu)").unwrap(),
        "1.18.0".to_string()
    );
    assert!(parse_nginx_server_header("apache").is_none());
}

#[test]
fn test_parsing_header_without_trailing_space() {
    // The banner grammar wants a space after the version.
    assert!(parse_nginx_server_header("nginx/1.18.0").is_none());
    assert!(parse_nginx_server_header("nginx/").is_none());
    assert!(parse_nginx_server_header("").is_none());
}

#[test]
fn nginx_detection_from_server_header() {
    let http = BasicHttpGetProbeResult {
        status_code: 200,
        headers: vec![
            ("date".to_string(), b"today".to_vec()),
            ("server".to_string(), b"nginx/1.18.0 (Ubuntu)".to_vec()),
        ],
    };
    let rule = NginxDetectionRule {};
    let result = rule.evaluate(&http);
    let conclusion = result.conclusion.expect("a banner should be recognized");
    assert!(conclusion.service_name.contains("nginx"));
    assert_eq!(conclusion.service_version, Some("1.18.0".to_string()));
    assert!(matches!(
        conclusion.certainty,
        ServiceDetectionCertainty::Advertised
    ));
}

#[test]
fn nginx_detection_ignores_header_name_case() {
    let http = BasicHttpGetProbeResult {
        status_code: 200,
        headers: vec![("Server".to_string(), b"nginx/1.18.0 (Ubuntu)".to_vec())],
    };
    let rule = NginxDetectionRule {};
    let conclusion = rule.evaluate(&http).conclusion.unwrap();
    assert_eq!(conclusion.service_version, Some("1.18.0".to_string()));
}

#[test]
fn nginx_detection_ignores_other_servers() {
    let http = BasicHttpGetProbeResult {
        status_code: 200,
        headers: vec![("server".to_string(), b"apache".to_vec())],
    };
    let rule = NginxDetectionRule {};
    assert!(rule.evaluate(&http).conclusion.is_none());
}

#[test]
fn nginx_detection_without_server_header() {
    let http = BasicHttpGetProbeResult {
        status_code: 404,
        headers: vec![("date".to_string(), b"today".to_vec())],
    };
    let rule = NginxDetectionRule {};
    assert!(rule.evaluate(&http).conclusion.is_none());
}

#[test]
fn nginx_detection_rejects_invalid_utf8() {
    let http = BasicHttpGetProbeResult {
        status_code: 200,
        headers: vec![("server".to_string(), vec![0xff, 0xfe, 0x6e])],
    };
    let rule = NginxDetectionRule {};
    assert!(rule.evaluate(&http).conclusion.is_none());
}
