use basic_auth_proxy::auth::{authenticate, Verdict};
use basic_auth_proxy::config::{Config, ConfigError};
use basic_auth_proxy::headers::{is_authorization, remove_authorization, Header};
use basic_auth_proxy::pipeline::{
    screen, settle, unauthorized_response, unavailable_response, upstream_uri, Admission,
    InboundRequest, Reply,
};

fn config() -> Config {
    match Config::new(
        "http://my-server:80/",
        "bob".to_string(),
        "hunter2".to_string(),
        "My special place".to_string(),
    ) {
        Ok(c) => c,
        Err(e) => panic!("configuration refused: {:?}", e),
    }
}

fn header(name: &str, value: &str) -> Header {
    Header { name: name.as_bytes().to_vec(), value: value.as_bytes().to_vec() }
}

fn basic(credentials: &str) -> String {
    format!("Basic {}", base64::encode(credentials))
}

fn request(uri: &str, path_and_query: Option<&str>, headers: Vec<Header>) -> InboundRequest {
    InboundRequest {
        uri: uri.to_string(),
        path_and_query: path_and_query.map(|p| p.to_string()),
        headers,
    }
}

fn verdict_for(value: &[u8]) -> Verdict {
    authenticate(&Some(value.to_vec()), &config())
}

#[test]
fn config_keeps_scheme_and_authority() {
    let c = config();
    assert_eq!(c.scheme, "http");
    assert_eq!(c.authority, "my-server:80");
    assert_eq!(c.username, "bob");
    assert_eq!(c.password, "hunter2");
}

#[test]
fn config_defaults_scheme_to_http() {
    let c = Config::new("my-server:8080", "a".to_string(), "b".to_string(), "r".to_string());
    match c {
        Ok(c) => {
            assert_eq!(c.scheme, "http");
            assert_eq!(c.authority, "my-server:8080");
        }
        Err(e) => panic!("unexpected {:?}", e),
    }
}

#[test]
fn config_keeps_https_scheme() {
    let c = Config::new("https://example.org", "a".to_string(), "b".to_string(), "r".to_string());
    match c {
        Ok(c) => {
            assert_eq!(c.scheme, "https");
            assert_eq!(c.authority, "example.org");
        }
        Err(e) => panic!("unexpected {:?}", e),
    }
}

#[test]
fn config_rejects_invalid_uri() {
    let c = Config::new("http://exa mple.org/", "a".to_string(), "b".to_string(), "r".to_string());
    assert!(matches!(c, Err(ConfigError::InvalidUpstream)));
}

#[test]
fn config_rejects_missing_authority() {
    let c = Config::new("/just/a/path", "a".to_string(), "b".to_string(), "r".to_string());
    assert!(matches!(c, Err(ConfigError::MissingAuthority)));
}

#[test]
fn config_rejects_realm_with_newline() {
    let c = Config::new("http://h/", "a".to_string(), "b".to_string(), "bad\nrealm".to_string());
    assert!(matches!(c, Err(ConfigError::InvalidRealm)));
}

#[test]
fn challenge_names_realm() {
    assert_eq!(config().challenge(), "Basic realm=\"My special place\", charset=\"UTF-8\"");
}

#[test]
fn no_authorization_header_is_challenged() {
    let req = request("/a/b?c=d", Some("/a/b?c=d"), vec![header("accept", "*/*")]);
    match screen(&config(), req) {
        Admission::Rejected { response, log } => {
            assert_eq!(response.status, 401);
            assert_eq!(
                response.www_authenticate.as_deref(),
                Some("Basic realm=\"My special place\", charset=\"UTF-8\"")
            );
            assert!(response.body.is_empty());
            assert_eq!(log.uri, "/a/b?c=d");
            assert!(!log.authorized);
            assert!(log.error.is_none());
        }
        Admission::Forward(_) => panic!("forwarded without credentials"),
    }
}

#[test]
fn wrong_password_is_challenged() {
    let req = request("/", Some("/"), vec![header("authorization", &basic("bob:wrong"))]);
    match screen(&config(), req) {
        Admission::Rejected { response, .. } => assert_eq!(response.status, 401),
        Admission::Forward(_) => panic!("forwarded with a wrong password"),
    }
}

#[test]
fn malformed_credentials_are_unauthorized() {
    // not Base64
    assert_eq!(verdict_for(b"Basic !!!!"), Verdict::Unauthorized);
    // Base64 of bytes that are not UTF-8
    let not_utf8 = format!("Basic {}", base64::encode([0xffu8, 0xfe, b':', b'x']));
    assert_eq!(verdict_for(not_utf8.as_bytes()), Verdict::Unauthorized);
    // no `:`
    assert_eq!(verdict_for(basic("bobhunter2").as_bytes()), Verdict::Unauthorized);
    // another scheme, or another case of `Basic`
    let token = base64::encode("bob:hunter2");
    assert_eq!(verdict_for(format!("Bearer {}", token).as_bytes()), Verdict::Unauthorized);
    assert_eq!(verdict_for(format!("basic {}", token).as_bytes()), Verdict::Unauthorized);
    assert_eq!(verdict_for(format!("Basic  {}", token).as_bytes()), Verdict::Unauthorized);
    // a value that is not visible text
    assert_eq!(verdict_for(format!("Basic {}\u{1}", token).as_bytes()), Verdict::Unauthorized);
    // empty
    assert_eq!(verdict_for(b""), Verdict::Unauthorized);
    // absent
    assert_eq!(authenticate(&None, &config()), Verdict::Unauthorized);
}

#[test]
fn split_is_at_first_colon() {
    let c = match Config::new("http://h/", "bob".to_string(), "a:b".to_string(), "r".to_string()) {
        Ok(c) => c,
        Err(e) => panic!("unexpected {:?}", e),
    };
    let ok = basic("bob:a:b");
    assert_eq!(authenticate(&Some(ok.into_bytes()), &c), Verdict::Authorized);
    let shifted = basic("bob:a:b:");
    assert_eq!(authenticate(&Some(shifted.into_bytes()), &c), Verdict::Unauthorized);
}

#[test]
fn user_with_colon_never_matches() {
    let c = match Config::new("http://h/", "b:ob".to_string(), "pw".to_string(), "r".to_string()) {
        Ok(c) => c,
        Err(e) => panic!("unexpected {:?}", e),
    };
    let value = basic("b:ob:pw");
    assert_eq!(authenticate(&Some(value.into_bytes()), &c), Verdict::Unauthorized);
}

#[test]
fn non_ascii_credentials_compare_exactly() {
    let c = match Config::new("http://h/", "jürgen".to_string(), "pässe".to_string(), "r".to_string()) {
        Ok(c) => c,
        Err(e) => panic!("unexpected {:?}", e),
    };
    let ok = basic("jürgen:pässe");
    assert_eq!(authenticate(&Some(ok.into_bytes()), &c), Verdict::Authorized);
    let other = basic("jurgen:pässe");
    assert_eq!(authenticate(&Some(other.into_bytes()), &c), Verdict::Unauthorized);
}

#[test]
fn matching_credentials_forward_without_authorization() {
    let req = request(
        "http://proxy.local:3000/a/b?c=d",
        Some("/a/b?c=d"),
        vec![
            header("accept", "*/*"),
            header("authorization", &basic("bob:hunter2")),
            header("x-trace", "1"),
        ],
    );
    match screen(&config(), req) {
        Admission::Forward(out) => {
            assert_eq!(out.uri, "http://my-server:80/a/b?c=d");
            assert_eq!(out.headers.len(), 2);
            assert_eq!(out.headers[0].name, b"accept".to_vec());
            assert_eq!(out.headers[1].name, b"x-trace".to_vec());
            assert!(out.headers.iter().all(|h| !is_authorization(&h.name)));
        }
        Admission::Rejected { .. } => panic!("matching credentials were refused"),
    }
}

#[test]
fn header_name_case_is_ignored() {
    let req = request("/x", Some("/x"), vec![header("AUTHORIZATION", &basic("bob:hunter2"))]);
    match screen(&config(), req) {
        Admission::Forward(out) => {
            assert_eq!(out.uri, "http://my-server:80/x");
            assert!(out.headers.is_empty());
        }
        Admission::Rejected { .. } => panic!("upper-case header name was not read"),
    }
}

#[test]
fn only_first_authorization_counts_and_all_are_removed() {
    let mut headers = vec![
        header("Authorization", &basic("bob:wrong")),
        header("host", "proxy"),
        header("authorization", &basic("bob:hunter2")),
    ];
    let first = remove_authorization(&mut headers);
    assert_eq!(first, Some(basic("bob:wrong").into_bytes()));
    assert_eq!(headers.len(), 1);
    assert_eq!(headers[0].name, b"host".to_vec());

    let req = request(
        "/",
        Some("/"),
        vec![header("authorization", &basic("bob:wrong")), header("authorization", &basic("bob:hunter2"))],
    );
    assert!(matches!(screen(&config(), req), Admission::Rejected { .. }));
}

#[test]
fn rewrite_ignores_client_origin() {
    let c = config();
    assert_eq!(upstream_uri(&c, &Some("/a/b?c=d".to_string())), "http://my-server:80/a/b?c=d");
    let from_other_host = request("https://elsewhere:9/a/b?c=d", Some("/a/b?c=d"), vec![
        header("authorization", &basic("bob:hunter2")),
    ]);
    match screen(&c, from_other_host) {
        Admission::Forward(out) => assert_eq!(out.uri, "http://my-server:80/a/b?c=d"),
        Admission::Rejected { .. } => panic!("refused"),
    }
}

#[test]
fn rewrite_without_path_uses_root() {
    assert_eq!(upstream_uri(&config(), &None), "http://my-server:80/");
}

#[test]
fn upstream_failure_gives_503() {
    let (reply, log) = settle::<&str>("/a".to_string(), Err("connection refused".to_string()));
    match reply {
        Reply::Synthetic(r) => {
            assert_eq!(r.status, 503);
            assert_eq!(r.body, "503 Service Unavailable");
            assert!(r.www_authenticate.is_none());
        }
        Reply::Upstream(_) => panic!("relayed a failure"),
    }
    assert_eq!(log.uri, "/a");
    assert!(log.authorized);
    assert_eq!(log.error.as_deref(), Some("connection refused"));
}

#[derive(Debug, PartialEq)]
struct Upstream {
    status: u16,
    headers: Vec<(String, String)>,
    body: String,
}

#[test]
fn upstream_success_is_relayed() {
    let upstream = Upstream {
        status: 200,
        headers: vec![("content-type".to_string(), "text/plain".to_string())],
        body: "ok".to_string(),
    };
    let (reply, log) = settle("/b".to_string(), Ok(upstream));
    match reply {
        Reply::Upstream(r) => {
            assert_eq!(r.status, 200);
            assert_eq!(r.body, "ok");
            assert_eq!(r.headers, vec![("content-type".to_string(), "text/plain".to_string())]);
        }
        Reply::Synthetic(_) => panic!("replaced a good response"),
    }
    assert!(log.authorized);
    assert!(log.error.is_none());
}

#[test]
fn bob_round_trip() {
    assert_eq!(verdict_for(basic("bob:hunter2").as_bytes()), Verdict::Authorized);
    assert_eq!(verdict_for(basic("bob:wrong").as_bytes()), Verdict::Unauthorized);
}

#[test]
fn synthetic_responses() {
    let r = unauthorized_response(&config());
    assert_eq!(r.status, 401);
    assert!(r.body.is_empty());
    let u = unavailable_response();
    assert_eq!(u.status, 503);
    assert_eq!(u.body, "503 Service Unavailable");
}

#[test]
fn authorization_name_forms() {
    assert!(is_authorization(&b"authorization".to_vec()));
    assert!(is_authorization(&b"Authorization".to_vec()));
    assert!(is_authorization(&b"aUtHoRiZaTiOn".to_vec()));
    assert!(!is_authorization(&b"authorisation".to_vec()));
    assert!(!is_authorization(&b"proxy-authorization".to_vec()));
    assert!(!is_authorization(&Vec::new()));
}
