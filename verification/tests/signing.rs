use cloud_curl::auth;
use cloud_curl::auth::AuthError;
use cloud_curl::aws::config::FileRead;
use cloud_curl::aws::credentials::Credentials;
use cloud_curl::aws::signing::{
    apply_signature, is_header_safe, parse_uri, sign, sign_request, SigningContext, MAX_HEADERS, MAX_TIMESTAMP,
};
use cloud_curl::config::Env;
use cloud_curl::request::{Method, Request};

const TIME: u64 = 1_440_938_160;

fn get(uri: &str) -> Request {
    Request { method: Method::GET, uri: uri.to_string(), headers: Vec::new(), body: String::new() }
}

fn context(token: Option<&str>) -> SigningContext {
    SigningContext {
        credentials: Credentials {
            access_key_id: "AKIDEXAMPLE".to_string(),
            secret_key: "wJalrXUtnFEMI/K7MDENG+bPxRfiCYEXAMPLEKEY".to_string(),
            security_token: token.map(String::from),
        },
        region: "us-east-1".to_string(),
        service_name: "service".to_string(),
        timestamp: TIME,
    }
}

fn copy(c: &SigningContext) -> SigningContext {
    SigningContext {
        credentials: Credentials {
            access_key_id: c.credentials.access_key_id.clone(),
            secret_key: c.credentials.secret_key.clone(),
            security_token: c.credentials.security_token.clone(),
        },
        region: c.region.clone(),
        service_name: c.service_name.clone(),
        timestamp: c.timestamp,
    }
}

fn signature(r: &Request) -> String {
    let authorization = r.header("authorization").unwrap();
    authorization.rsplit("Signature=").next().unwrap().to_string()
}

#[test]
fn vanilla_get_has_the_known_signature() {
    let signed = sign(get("https://example.amazonaws.com/"), context(None)).unwrap();
    assert_eq!(
        signed.headers,
        vec![
            ("x-amz-date".to_string(), "20150830T123600Z".to_string()),
            (
                "authorization".to_string(),
                "AWS4-HMAC-SHA256 Credential=AKIDEXAMPLE/20150830/us-east-1/service/aws4_request, SignedHeaders=host;x-amz-date, Signature=5fa00fa31553b73ebf1942676e86291e8372ff2a2260956d9b8aae1d763fbf31".to_string()
            ),
        ]
    );
    assert_eq!(signed.method, Method::GET);
    assert_eq!(signed.uri, "https://example.amazonaws.com/");
    assert_eq!(signed.body, "");
}

#[test]
fn session_token_is_signed_and_sent() {
    let request = Request {
        method: Method::POST,
        uri: "https://search.example.com/index/_search".to_string(),
        headers: Vec::new(),
        body: "{\"query\":1}".to_string(),
    };
    let context = SigningContext {
        credentials: Credentials {
            access_key_id: "AK".to_string(),
            secret_key: "secret123".to_string(),
            security_token: Some("TOKEN123".to_string()),
        },
        region: "eu-west-1".to_string(),
        service_name: "es".to_string(),
        timestamp: TIME,
    };
    let signed = sign(request, context).unwrap();
    assert_eq!(signed.headers.len(), 3);
    assert_eq!(signed.headers[0], ("x-amz-date".to_string(), "20150830T123600Z".to_string()));
    assert_eq!(signed.headers[1].0, "authorization");
    assert_eq!(signed.headers[2], ("x-amz-security-token".to_string(), "TOKEN123".to_string()));
    assert_eq!(
        signed.headers[1].1,
        "AWS4-HMAC-SHA256 Credential=AK/20150830/eu-west-1/es/aws4_request, SignedHeaders=host;x-amz-date;x-amz-security-token, Signature=be790b87a3d730c4296d05921cf2d45720d5e104ab6ea7f055a9d0a9b768418d"
    );
    assert_eq!(signed.body, "{\"query\":1}");
}

#[test]
fn signing_twice_gives_the_same_bytes() {
    let a = sign(get("https://example.amazonaws.com/a?x=1"), context(Some("t"))).unwrap();
    let b = sign(get("https://example.amazonaws.com/a?x=1"), context(Some("t"))).unwrap();
    assert_eq!(a.headers, b.headers);
    assert_eq!(signature(&a), signature(&b));
}

#[test]
fn one_changed_body_byte_changes_the_signature() {
    let mut first = get("https://example.amazonaws.com/");
    first.body = "payload-a".to_string();
    let mut second = get("https://example.amazonaws.com/");
    second.body = "payload-b".to_string();
    let a = sign(first, context(None)).unwrap();
    let b = sign(second, context(None)).unwrap();
    assert_ne!(signature(&a), signature(&b));
    assert_eq!(signature(&a).len(), 64);
    assert!(signature(&a).chars().all(|c| c.is_ascii_digit() || ('a'..='f').contains(&c)));
}

#[test]
fn other_headers_stay_and_signature_headers_are_replaced() {
    let mut request = get("https://example.amazonaws.com/");
    request.headers = vec![
        ("Content-Type".to_string(), "application/json".to_string()),
        ("Authorization".to_string(), "stale".to_string()),
        ("X-Custom".to_string(), "kept".to_string()),
    ];
    let signed = sign(request, context(None)).unwrap();
    assert_eq!(signed.headers.len(), 4);
    assert_eq!(signed.headers[0], ("Content-Type".to_string(), "application/json".to_string()));
    assert_eq!(signed.headers[1].0, "authorization");
    assert_ne!(signed.headers[1].1, "stale");
    assert!(signed.headers[1].1.contains("SignedHeaders=authorization;content-type;host;x-amz-date;x-custom"));
    assert_eq!(signed.headers[2], ("X-Custom".to_string(), "kept".to_string()));
    assert_eq!(signed.headers[3].0, "x-amz-date");
}

#[test]
fn uri_without_scheme_or_host_is_an_invalid_request() {
    for uri in ["", "/just/a/path", "example.com", "not a uri", "https://", "http://exa mple.com/"] {
        assert!(matches!(sign(get(uri), context(None)), Err(AuthError::InvalidRequest)));
        assert!(matches!(parse_uri(uri), Err(AuthError::InvalidRequest)));
    }
}

#[test]
fn uri_parts_are_scheme_authority_and_path() {
    let parts = parse_uri("https://user@search.example.com:9200/a/b?q=1").unwrap();
    assert_eq!(parts.scheme, "https");
    assert_eq!(parts.authority, "user@search.example.com:9200");
    assert_eq!(parts.path, "/a/b");
    let parts = parse_uri("http://h").unwrap();
    assert_eq!(parts.scheme, "http");
    assert_eq!(parts.authority, "h");
    assert_eq!(parts.path, "/");
}

#[test]
fn time_after_year_9999_is_an_invalid_request() {
    let mut c = context(None);
    c.timestamp = MAX_TIMESTAMP;
    let signed = sign(get("https://example.amazonaws.com/"), copy(&c)).unwrap();
    assert_eq!(signed.header("x-amz-date"), Some("99991231T235959Z".to_string()));
    c.timestamp = MAX_TIMESTAMP + 1;
    assert!(matches!(sign(get("https://example.amazonaws.com/"), copy(&c)), Err(AuthError::InvalidRequest)));
    c.timestamp = u64::MAX;
    assert!(matches!(sign(get("https://example.amazonaws.com/"), copy(&c)), Err(AuthError::InvalidRequest)));
    c.timestamp = 0;
    let signed = sign(get("https://example.amazonaws.com/"), copy(&c)).unwrap();
    assert_eq!(signed.header("x-amz-date"), Some("19700101T000000Z".to_string()));
}

#[test]
fn values_that_cannot_stand_in_a_header_are_an_invalid_request() {
    let mut c = context(None);
    c.credentials.access_key_id = "AK\nID".to_string();
    assert!(matches!(sign(get("https://e.example/"), c), Err(AuthError::InvalidRequest)));
    let mut c = context(None);
    c.region = "us\u{7f}east".to_string();
    assert!(matches!(sign(get("https://e.example/"), c), Err(AuthError::InvalidRequest)));
    let mut c = context(None);
    c.service_name = "e\u{0}s".to_string();
    assert!(matches!(sign(get("https://e.example/"), c), Err(AuthError::InvalidRequest)));
    let c = context(Some("to\rken"));
    assert!(matches!(sign(get("https://e.example/"), c), Err(AuthError::InvalidRequest)));
    let mut request = get("https://e.example/");
    request.headers = vec![("bad name".to_string(), "v".to_string())];
    assert!(matches!(sign(request, context(None)), Err(AuthError::InvalidRequest)));
}

#[test]
fn header_safety_is_tab_or_visible_or_beyond_ascii() {
    assert!(is_header_safe(""));
    assert!(is_header_safe("plain value\twith tab"));
    assert!(is_header_safe("caf\u{e9} \u{3000}"));
    assert!(!is_header_safe("a\nb"));
    assert!(!is_header_safe("a\u{1f}"));
    assert!(!is_header_safe("\u{7f}"));
}

#[test]
fn non_ascii_values_are_signed_and_come_back_unchanged() {
    let mut c = context(Some("t\u{f6}ken"));
    c.credentials.access_key_id = "AK\u{e9}".to_string();
    let signed = sign(get("https://e.example/"), c).unwrap();
    assert_eq!(signed.header("x-amz-security-token"), Some("t\u{f6}ken".to_string()));
    assert!(signed.header("authorization").unwrap().contains("Credential=AK\u{e9}/20150830/"));
}

#[test]
fn applying_a_signature_sets_each_header_in_order() {
    let mut request = get("https://e/");
    request.headers = vec![("a".to_string(), "1".to_string()), ("B".to_string(), "2".to_string())];
    let added = vec![
        ("b".to_string(), "3".to_string()),
        ("c".to_string(), "4".to_string()),
        ("C".to_string(), "5".to_string()),
    ];
    let r = apply_signature(request, added);
    assert_eq!(
        r.headers,
        vec![
            ("a".to_string(), "1".to_string()),
            ("b".to_string(), "3".to_string()),
            ("C".to_string(), "5".to_string()),
        ]
    );
    let unchanged = apply_signature(get("https://e/"), Vec::new());
    assert!(unchanged.headers.is_empty());
    assert_eq!(unchanged.uri, "https://e/");
}

fn env(home: Option<&str>) -> Env {
    Env { AWS_PROFILE: None, ACCESS_KEY: None, SECRET_KEY: None, HOME: home.map(String::from) }
}

#[test]
fn sign_request_resolves_then_signs_for_the_search_service() {
    let credentials = FileRead::Contents(
        "[default]\naws_access_key_id = AK\naws_secret_access_key = secret123\naws_session_token = TOKEN123\n".to_string(),
    );
    let config = FileRead::Contents("[default]\nregion = eu-west-1\n".to_string());
    let request = Request {
        method: Method::POST,
        uri: "https://search.example.com/index/_search".to_string(),
        headers: Vec::new(),
        body: "{\"query\":1}".to_string(),
    };
    let signed = sign_request(request, &env(Some("/h")), &credentials, &config, TIME).unwrap();
    assert_eq!(
        signature(&signed),
        "be790b87a3d730c4296d05921cf2d45720d5e104ab6ea7f055a9d0a9b768418d"
    );
    assert_eq!(signed.header("X-Amz-Security-Token"), Some("TOKEN123".to_string()));
}

#[test]
fn sign_request_uses_the_profile_that_the_environment_names() {
    let credentials = FileRead::Contents(
        "[default]\naws_access_key_id = D\naws_secret_access_key = d\n[work]\naws_access_key_id = W\naws_secret_access_key = w\n".to_string(),
    );
    let config = FileRead::Contents("[work]\nregion = ap-south-1\n".to_string());
    let mut e = env(Some("/h"));
    e.AWS_PROFILE = Some("work".to_string());
    let signed = auth::sign_request(get("https://e.example/"), &e, &credentials, &config, TIME).unwrap();
    assert!(signed.header("authorization").unwrap().contains("Credential=W/20150830/ap-south-1/es/aws4_request"));
    let signed = auth::sign_request(get("https://e.example/"), &env(Some("/h")), &credentials, &config, TIME).unwrap();
    assert!(signed.header("authorization").unwrap().contains("Credential=D/20150830/us-east-1/es/aws4_request"));
}

#[test]
fn resolution_errors_pass_through_signing_unchanged() {
    let good = FileRead::Contents("[default]\naws_access_key_id = A\naws_secret_access_key = S\n".to_string());
    let r = sign_request(get("https://e.example/"), &env(None), &good, &FileRead::Missing, TIME);
    assert!(matches!(r, Err(AuthError::HomeDirectoryNotFound)));
    let r = sign_request(get("https://e.example/"), &env(Some("/h")), &FileRead::Unreadable, &FileRead::Missing, TIME);
    assert!(matches!(r, Err(AuthError::CredentialsFileUnreadable)));
    let r = sign_request(get("https://e.example/"), &env(Some("/h")), &FileRead::Missing, &FileRead::Missing, TIME);
    assert!(matches!(r, Err(AuthError::CredentialsNotFound)));
    let other = FileRead::Contents("[other]\naws_access_key_id = A\naws_secret_access_key = S\n".to_string());
    let r = sign_request(get("https://e.example/"), &env(Some("/h")), &other, &FileRead::Missing, TIME);
    assert!(matches!(r, Err(AuthError::ProfileNotFound)));
    let bad = FileRead::Contents("[default]\nfoo=bar=baz\n".to_string());
    let r = sign_request(get("https://e.example/"), &env(Some("/h")), &bad, &FileRead::Missing, TIME);
    assert!(matches!(r, Err(AuthError::MalformedCredentialsFile)));
    let r = sign_request(get("no-scheme"), &env(Some("/h")), &good, &FileRead::Missing, TIME);
    assert!(matches!(r, Err(AuthError::InvalidRequest)));
    let mut with_keys = env(None);
    with_keys.ACCESS_KEY = Some("A".to_string());
    with_keys.SECRET_KEY = Some("S".to_string());
    let r = sign_request(get("https://e.example/"), &with_keys, &good, &FileRead::Missing, TIME);
    assert!(matches!(r, Err(AuthError::HomeDirectoryNotFound)));
}

#[test]
fn unusual_but_absolute_uris_are_signed() {
    let long_query = format!("https://h.example/p?{}", "+".repeat(60_000));
    for uri in [
        "https://h.example",
        "https://h.example?b=2&a=1",
        "https://[::1]:9200/_cat/indices?v",
        "http://user:pw@h.example:80/a/../b/./c%20d?x=%2F&x=+&y",
        "https://h.example/{\"json\":1}",
        long_query.as_str(),
    ] {
        assert!(parse_uri(uri).is_ok());
        let signed = sign(get(uri), context(Some("token"))).unwrap();
        assert_eq!(signed.uri, uri);
        assert_eq!(signed.headers.len(), 3);
        assert_eq!(signature(&signed).len(), 64);
    }
}

fn with_headers(count: usize, distinct: bool) -> Request {
    let mut request = get("https://example.amazonaws.com/");
    request.headers = (0..count)
        .map(|i| (if distinct { format!("x-h{}", i) } else { "a".to_string() }, "v".to_string()))
        .collect();
    request
}

#[test]
fn more_headers_than_the_limit_are_an_invalid_request() {
    assert_eq!(MAX_HEADERS, 4096);
    for count in [MAX_HEADERS + 1, 24_573, 24_576, 24_577, 40_000] {
        assert!(matches!(sign(with_headers(count, false), context(None)), Err(AuthError::InvalidRequest)));
        assert!(matches!(sign(with_headers(count, true), context(Some("t"))), Err(AuthError::InvalidRequest)));
    }
}

#[test]
fn as_many_headers_as_the_limit_are_signed() {
    let signed = sign(with_headers(MAX_HEADERS, true), context(Some("t"))).unwrap();
    assert_eq!(signed.headers.len(), MAX_HEADERS + 3);
    assert_eq!(signed.headers[0], ("x-h0".to_string(), "v".to_string()));
    assert_eq!(signed.headers[MAX_HEADERS - 1], (format!("x-h{}", MAX_HEADERS - 1), "v".to_string()));
    assert_eq!(signed.headers[MAX_HEADERS].0, "x-amz-date");
    assert_eq!(signed.headers[MAX_HEADERS + 1].0, "authorization");
    assert_eq!(signed.headers[MAX_HEADERS + 2], ("x-amz-security-token".to_string(), "t".to_string()));
    let signed = sign(with_headers(MAX_HEADERS, false), context(None)).unwrap();
    assert_eq!(signed.headers.len(), MAX_HEADERS + 2);
    assert_eq!(signed.header("a"), Some("v".to_string()));
}

#[test]
fn sign_request_sets_the_signature_and_keeps_everything_else() {
    let credentials = FileRead::Contents(
        "[default]\naws_access_key_id = AK\naws_secret_access_key = SK\n[temp]\naws_access_key_id = TK\naws_secret_access_key = TS\naws_session_token = TT\n".to_string(),
    );
    let config = FileRead::Contents("[default]\nregion = eu-west-1\n".to_string());
    let request = || Request {
        method: Method::PUT,
        uri: "https://search.example.com/i/_doc/1".to_string(),
        headers: vec![
            ("Content-Type".to_string(), "application/json".to_string()),
            ("X-Amz-Security-Token".to_string(), "stale".to_string()),
            ("Accept".to_string(), "*/*".to_string()),
        ],
        body: "{}".to_string(),
    };
    let signed = sign_request(request(), &env(Some("/h")), &credentials, &config, TIME).unwrap();
    assert_eq!(signed.method, Method::PUT);
    assert_eq!(signed.uri, "https://search.example.com/i/_doc/1");
    assert_eq!(signed.body, "{}");
    assert_eq!(signed.header("x-amz-date"), Some("20150830T123600Z".to_string()));
    assert!(signed.header("authorization").is_some());
    assert_eq!(signed.header("x-amz-security-token"), Some("stale".to_string()));
    assert_eq!(signed.header("content-type"), Some("application/json".to_string()));
    assert_eq!(signed.header("accept"), Some("*/*".to_string()));
    let names: Vec<&str> = signed.headers.iter().map(|h| h.0.as_str()).collect();
    assert_eq!(names, vec!["Content-Type", "X-Amz-Security-Token", "Accept", "x-amz-date", "authorization"]);

    let mut temp = env(Some("/h"));
    temp.AWS_PROFILE = Some("temp".to_string());
    let signed = auth::sign_request(request(), &temp, &credentials, &config, TIME).unwrap();
    assert_eq!(signed.header("x-amz-security-token"), Some("TT".to_string()));
    assert_eq!(signed.header("content-type"), Some("application/json".to_string()));
    assert_eq!(signed.header("accept"), Some("*/*".to_string()));
    let others: Vec<&str> = signed
        .headers
        .iter()
        .map(|h| h.0.as_str())
        .filter(|n| *n == "Content-Type" || *n == "Accept")
        .collect();
    assert_eq!(others, vec!["Content-Type", "Accept"]);
    let names: Vec<&str> = signed.headers.iter().map(|h| h.0.as_str()).collect();
    assert_eq!(names, vec!["Content-Type", "x-amz-security-token", "Accept", "x-amz-date", "authorization"]);
}
