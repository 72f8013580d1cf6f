use cgi_gateway::cgi::{parse_cgi_response, Header};
use cgi_gateway::env::{
    extract_real_host, failure_status, find_header, map_environment, plan, target_path,
    target_query, value_text, EnvironmentSet, GatewayError, IncomingRequest, Plan, ServerConfig,
};
use cgi_gateway::gateway::process_input;

fn header(name: &str, value: &[u8]) -> Header {
    Header { name: name.as_bytes().to_vec(), value: value.to_vec() }
}

fn request(target: Option<&str>, headers: Vec<Header>) -> IncomingRequest {
    IncomingRequest {
        method: b"GET".to_vec(),
        target: target.map(|t| t.as_bytes().to_vec()),
        headers,
        body: None,
    }
}

fn config() -> ServerConfig {
    ServerConfig { port: 5055, debug: false, mount: b"/app".to_vec() }
}

fn listing(env: &EnvironmentSet) -> Vec<(String, String)> {
    env.vars
        .iter()
        .map(|v| {
            (String::from_utf8(v.name.clone()).unwrap(), String::from_utf8(v.value.clone()).unwrap())
        })
        .collect()
}

fn pair(a: &str, b: &str) -> (String, String) {
    (a.to_string(), b.to_string())
}

#[test]
fn fixed_and_derived_variables() {
    let req = request(Some("/app/index.cgi?a=1&b=2"), vec![header("Host", b"nas.local:5055")]);
    let env = map_environment(&req, &config()).unwrap();
    assert_eq!(
        listing(&env),
        vec![
            pair("SERVER_SOFTWARE", "rust"),
            pair("SERVER_PROTOCOL", "HTTP/1.1"),
            pair("HTTP_HOST", "nas.local:5055"),
            pair("GATEWAY_INTERFACE", "CGI/1.1"),
            pair("REQUEST_METHOD", "GET"),
            pair("QUERY_STRING", "a=1&b=2"),
            pair("REQUEST_URI", "/app/index.cgi?a=1&b=2"),
            pair("PATH_INFO", "/app/index.cgi"),
            pair("SCRIPT_NAME", "."),
            pair("SCRIPT_FILENAME", "/app/index.cgi"),
            pair("SERVER_PORT", "5055"),
            pair("REMOTE_ADDR", "nas.local:5055"),
            pair("SERVER_NAME", "nas.local:5055"),
            pair("HTTP_Host", "nas.local:5055"),
        ]
    );
}

#[test]
fn query_is_empty_when_absent() {
    let env = map_environment(&request(Some("/app/"), vec![]), &config()).unwrap();
    assert_eq!(env.get(b"QUERY_STRING").unwrap(), b"");
    assert_eq!(env.get(b"REQUEST_URI").unwrap(), b"/app/");
    assert_eq!(env.get(b"HTTP_HOST").unwrap(), b"");
    assert_eq!(env.get(b"REMOTE_ADDR").unwrap(), b"");
    assert_eq!(env.len(), 13);
}

#[test]
fn request_without_target_is_malformed() {
    let r = map_environment(&request(None, vec![header("Host", b"h")]), &config());
    assert_eq!(r.unwrap_err(), GatewayError::MalformedRequest);
}

#[test]
fn header_names_keep_their_casing() {
    let req = request(Some("/app/"), vec![header("X-Requested-With", b"XMLHttpRequest"), header("accept", b"*/*")]);
    let env = map_environment(&req, &config()).unwrap();
    assert_eq!(env.get(b"HTTP_X-Requested-With").unwrap(), b"XMLHttpRequest");
    assert_eq!(env.get(b"HTTP_accept").unwrap(), b"*/*");
    assert!(env.get(b"HTTP_X_REQUESTED_WITH").is_none());
    assert!(env.get(b"HTTP_ACCEPT").is_none());
}

#[test]
fn proxy_header_is_never_mapped() {
    let req = request(
        Some("/app/"),
        vec![header("Proxy", b"evil"), header("PROXY", b"evil"), header("proxy", b"evil"), header("Proxy-Connection", b"keep")],
    );
    let env = map_environment(&req, &config()).unwrap();
    assert!(env.get(b"HTTP_Proxy").is_none());
    assert!(env.get(b"HTTP_PROXY").is_none());
    assert!(env.get(b"HTTP_proxy").is_none());
    assert_eq!(env.get(b"HTTP_Proxy-Connection").unwrap(), b"keep");
}

#[test]
fn empty_header_value_is_not_mapped() {
    let req = request(Some("/app/"), vec![header("X-Empty", b"")]);
    let env = map_environment(&req, &config()).unwrap();
    assert!(env.get(b"HTTP_X-Empty").is_none());
}

#[test]
fn value_that_is_not_visible_text_maps_to_empty() {
    let req = request(Some("/app/"), vec![header("X-Bin", b"caf\xe9")]);
    let env = map_environment(&req, &config()).unwrap();
    assert_eq!(env.get(b"HTTP_X-Bin").unwrap(), b"");
    assert_eq!(value_text(b"a\tb ~"), b"a\tb ~");
    assert_eq!(value_text(b"a\x7f"), b"");
    assert_eq!(value_text(b"a\nb"), b"");
}

#[test]
fn header_cannot_override_fixed_variable() {
    let req = request(Some("/app/"), vec![header("Host", b"real"), header("HOST", b"other")]);
    let env = map_environment(&req, &config()).unwrap();
    assert_eq!(env.get(b"HTTP_HOST").unwrap(), b"real");
    assert_eq!(env.get(b"HTTP_Host").unwrap(), b"real");
    assert_eq!(env.len(), 14);
}

#[test]
fn later_header_of_same_name_replaces_earlier_in_place() {
    let req = request(Some("/app/"), vec![header("X-A", b"1"), header("X-B", b"2"), header("X-A", b"3")]);
    let env = map_environment(&req, &config()).unwrap();
    let l = listing(&env);
    assert_eq!(l[13], pair("HTTP_X-A", "3"));
    assert_eq!(l[14], pair("HTTP_X-B", "2"));
    assert_eq!(l.len(), 15);
}

#[test]
fn content_headers_get_canonical_names() {
    let req = request(
        Some("/app/"),
        vec![header("content-type", b"text/plain"), header("Content-Length", b"12")],
    );
    let env = map_environment(&req, &config()).unwrap();
    assert_eq!(env.get(b"CONTENT_TYPE").unwrap(), b"text/plain");
    assert_eq!(env.get(b"CONTENT_LENGTH").unwrap(), b"12");
    assert_eq!(env.get(b"HTTP_content-type").unwrap(), b"text/plain");
    let l = listing(&env);
    assert_eq!(l[l.len() - 2], pair("CONTENT_TYPE", "text/plain"));
    assert_eq!(l[l.len() - 1], pair("CONTENT_LENGTH", "12"));
}

#[test]
fn content_type_absent_means_no_variable() {
    let env = map_environment(&request(Some("/app/"), vec![]), &config()).unwrap();
    assert!(env.get(b"CONTENT_TYPE").is_none());
    assert!(env.get(b"CONTENT_LENGTH").is_none());
}

#[test]
fn content_type_round_trip() {
    let req = request(Some("/app/echo"), vec![header("Content-Type", b"text/plain")]);
    let env = map_environment(&req, &config()).unwrap();
    let mut output = b"Content-Type: ".to_vec();
    output.extend_from_slice(env.get(b"CONTENT_TYPE").unwrap());
    output.extend_from_slice(b"\r\n\r\n");
    let resp = parse_cgi_response(&output).unwrap();
    assert_eq!(resp.headers.len(), 1);
    assert_eq!(resp.headers[0].name, b"Content-Type");
    assert_eq!(resp.headers[0].value, b"text/plain");
}

#[test]
fn server_port_is_decimal() {
    let req = request(Some("/app/"), vec![]);
    let low = ServerConfig { port: 0, debug: true, mount: b"/".to_vec() };
    let high = ServerConfig { port: 65535, debug: true, mount: b"/".to_vec() };
    assert_eq!(map_environment(&req, &low).unwrap().get(b"SERVER_PORT").unwrap(), b"0");
    assert_eq!(map_environment(&req, &high).unwrap().get(b"SERVER_PORT").unwrap(), b"65535");
}

#[test]
fn path_and_query_of_target() {
    assert_eq!(target_path(b"/a/b?x=1?y"), b"/a/b");
    assert_eq!(target_query(b"/a/b?x=1?y"), b"x=1?y");
    assert_eq!(target_path(b"?x"), b"/");
    assert_eq!(target_path(b""), b"/");
    assert_eq!(target_query(b"/a"), b"");
    assert_eq!(target_query(b"/a?"), b"");
}

#[test]
fn real_host_is_first_host_header() {
    let hs = vec![header("Accept", b"*/*"), header("hOsT", b"one"), header("Host", b"two")];
    assert_eq!(extract_real_host(&hs), b"one");
    assert_eq!(extract_real_host(&vec![]), b"");
    assert_eq!(extract_real_host(&vec![header("Host", b"\xff")]), b"");
    assert_eq!(find_header(&hs, b"ACCEPT").unwrap(), b"*/*");
    assert!(find_header(&hs, b"Cookie").is_none());
}

#[test]
fn environment_set_replaces_in_place() {
    let mut env = EnvironmentSet::new();
    env.set(b"A".to_vec(), b"1".to_vec());
    env.set(b"B".to_vec(), b"2".to_vec());
    env.set(b"A".to_vec(), b"3".to_vec());
    assert_eq!(listing(&env), vec![pair("A", "3"), pair("B", "2")]);
    assert_eq!(env.position(b"B"), 1);
    assert_eq!(env.position(b"C"), 2);
    assert_eq!(env.len(), 2);
}

#[test]
fn path_outside_mount_is_redirected() {
    assert!(matches!(plan(&request(Some("/other"), vec![]), &config()), Plan::Redirect));
    assert!(matches!(plan(&request(Some("/ap"), vec![]), &config()), Plan::Redirect));
    assert!(matches!(plan(&request(Some("/x?y=/app/"), vec![]), &config()), Plan::Redirect));
    assert!(matches!(plan(&request(None, vec![]), &config()), Plan::Redirect));
}

#[test]
fn path_under_mount_is_invoked() {
    match plan(&request(Some("/app/index.cgi?q"), vec![header("Host", b"h")]), &config()) {
        Plan::Invoke(env) => {
            assert_eq!(env.get(b"PATH_INFO").unwrap(), b"/app/index.cgi");
            assert_eq!(env.get(b"QUERY_STRING").unwrap(), b"q");
        }
        Plan::Redirect => panic!("expected an invocation"),
    }
}

#[test]
fn whole_body_is_the_program_input() {
    let mut req = request(Some("/app/"), vec![]);
    assert_eq!(process_input(&req).len(), 0);
    req.body = Some(vec![7u8; 1000]);
    assert_eq!(process_input(&req).len(), 1000);
    assert_eq!(process_input(&req), &vec![7u8; 1000][..]);
    req.body = Some(Vec::new());
    assert_eq!(process_input(&req).len(), 0);
}

#[test]
fn every_failure_is_answered_with_500() {
    for e in [
        GatewayError::MalformedRequest,
        GatewayError::Spawn,
        GatewayError::Io,
        GatewayError::HeaderFormat,
        GatewayError::InvalidStatus,
        GatewayError::Timeout,
    ] {
        assert_eq!(failure_status(e), 500);
    }
}
