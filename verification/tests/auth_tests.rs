use cgi_gateway::auth::{
    authentication, candidate_tokens, cookie_candidates, decide, gate_action, login_outcome,
    segment_token, AccessDecision, DenyReason, GateAction, LoginOutcome,
};
use cgi_gateway::cgi::Header;
use cgi_gateway::text::{
    bytes_equal, copy_range, decimal_text, equal_ignoring_case, find_from, has_prefix, lit,
    trim_bounds,
};

fn cookie_header(value: &[u8]) -> Vec<Header> {
    vec![Header { name: b"Cookie".to_vec(), value: value.to_vec() }]
}

#[test]
fn no_password_accepts_anything() {
    assert!(authentication(&None, b""));
    assert!(authentication(&None, b"whatever"));
}

#[test]
fn password_must_match_exactly() {
    let p = Some(b"s3cret".to_vec());
    assert!(authentication(&p, b"s3cret"));
    assert!(!authentication(&p, b"S3cret"));
    assert!(!authentication(&p, b"s3cret "));
    assert!(!authentication(&p, b"s3cre"));
    assert!(!authentication(&p, b""));
    assert!(authentication(&Some(Vec::new()), b""));
}

#[test]
fn open_gate_allows_regardless_of_cookies() {
    assert_eq!(decide(false, &[]), AccessDecision::Allow);
    assert_eq!(decide(false, &[false]), AccessDecision::Allow);
    assert_eq!(decide(false, &[false, true]), AccessDecision::Allow);
}

#[test]
fn closed_gate_needs_an_accepted_token() {
    assert_eq!(decide(true, &[]), AccessDecision::Deny(DenyReason::NoToken));
    assert_eq!(decide(true, &[false, false]), AccessDecision::Deny(DenyReason::Rejected));
    assert_eq!(decide(true, &[false, true]), AccessDecision::Allow);
    assert_eq!(decide(true, &[true]), AccessDecision::Allow);
}

#[test]
fn denial_is_always_the_redirect_to_login() {
    for reason in [DenyReason::NoToken, DenyReason::Rejected] {
        match gate_action(AccessDecision::Deny(reason)) {
            GateAction::Redirect(to) => assert_eq!(to, b"/login"),
            GateAction::Forward => panic!("a denial was forwarded"),
        }
    }
    assert!(matches!(gate_action(AccessDecision::Allow), GateAction::Forward));
}

#[test]
fn token_is_found_among_cookies() {
    let found = cookie_candidates(b"theme=dark; access_token=abc.def; lang=en");
    assert_eq!(found, vec![b"abc.def".to_vec()]);
}

#[test]
fn segments_are_trimmed() {
    assert_eq!(cookie_candidates(b"  access_token=tok \t;x=y"), vec![b"tok".to_vec()]);
    assert_eq!(cookie_candidates(b"access_token=tok"), vec![b"tok".to_vec()]);
    assert_eq!(cookie_candidates(b";;access_token=tok;;"), vec![b"tok".to_vec()]);
}

#[test]
fn segment_needs_exactly_one_equals_sign() {
    assert!(cookie_candidates(b"access_token=a=b").is_empty());
    assert!(cookie_candidates(b"access_token").is_empty());
    assert!(cookie_candidates(b"access_token=abc==").is_empty());
    assert_eq!(cookie_candidates(b"access_token="), vec![b"".to_vec()]);
}

#[test]
fn cookie_name_must_match_exactly() {
    assert!(cookie_candidates(b"access_token2=abc").is_empty());
    assert!(cookie_candidates(b"xaccess_token=abc").is_empty());
    assert!(cookie_candidates(b"Access_Token=abc").is_empty());
    assert!(cookie_candidates(b"access_token =abc").is_empty());
    assert!(cookie_candidates(b"").is_empty());
}

#[test]
fn every_matching_segment_is_a_candidate_in_order() {
    let found = cookie_candidates(b"access_token=one; a=b; access_token=two");
    assert_eq!(found, vec![b"one".to_vec(), b"two".to_vec()]);
}

#[test]
fn candidates_come_from_the_cookie_header() {
    assert_eq!(candidate_tokens(&cookie_header(b"access_token=t1")), vec![b"t1".to_vec()]);
    assert!(candidate_tokens(&vec![]).is_empty());
    assert!(candidate_tokens(&cookie_header(b"access_token=t\xff")).is_empty());
    let lower = vec![Header { name: b"cookie".to_vec(), value: b"access_token=t2".to_vec() }];
    assert_eq!(candidate_tokens(&lower), vec![b"t2".to_vec()]);
}

#[test]
fn segment_token_reads_one_segment() {
    assert_eq!(segment_token(b"access_token=xyz"), Some(b"xyz".to_vec()));
    assert_eq!(segment_token(b"other=xyz"), None);
    assert_eq!(segment_token(b"=xyz"), None);
}

#[test]
fn login_sets_the_cookie() {
    match login_outcome(true, Some(b"tok.en".to_vec()), 3600) {
        LoginOutcome::Welcome(c) => {
            assert_eq!(c, b"access_token=tok.en; Max-Age=3600; Path=/; HttpOnly".to_vec())
        }
        LoginOutcome::Retry => panic!("expected a cookie"),
    }
}

#[test]
fn failed_login_goes_back_to_login() {
    assert!(matches!(login_outcome(false, Some(b"t".to_vec()), 10), LoginOutcome::Retry));
    assert!(matches!(login_outcome(false, None, 10), LoginOutcome::Retry));
    assert!(matches!(login_outcome(true, None, 10), LoginOutcome::Retry));
}

#[test]
fn login_then_request_with_cookie_is_allowed() {
    let configured = Some(b"pw".to_vec());
    let ok = authentication(&configured, b"pw");
    let cookie = match login_outcome(ok, Some(b"eyJ0.abc-_".to_vec()), 86400) {
        LoginOutcome::Welcome(c) => c,
        LoginOutcome::Retry => panic!("expected a cookie"),
    };
    let sent_back = &cookie[..cookie.iter().position(|b| *b == b';').unwrap()];
    let found = candidate_tokens(&cookie_header(sent_back));
    assert_eq!(found, vec![b"eyJ0.abc-_".to_vec()]);
    let verdicts: Vec<bool> = found.iter().map(|t| t == b"eyJ0.abc-_").collect();
    assert_eq!(decide(true, &verdicts), AccessDecision::Allow);
}

#[test]
fn decimal_text_values() {
    assert_eq!(decimal_text(0), b"0");
    assert_eq!(decimal_text(9), b"9");
    assert_eq!(decimal_text(10), b"10");
    assert_eq!(decimal_text(604800), b"604800");
    assert_eq!(decimal_text(u64::MAX), b"18446744073709551615");
}

#[test]
fn text_helpers() {
    assert_eq!(lit("abc"), b"abc");
    assert!(bytes_equal(b"abc", b"abc"));
    assert!(!bytes_equal(b"abc", b"abd"));
    assert!(!bytes_equal(b"abc", b"ab"));
    assert!(equal_ignoring_case(b"Content-Type", b"content-type"));
    assert!(!equal_ignoring_case(b"a[b", b"a{b"));
    assert!(has_prefix(b"/app/x", b"/app"));
    assert!(!has_prefix(b"/ap", b"/app"));
    assert!(has_prefix(b"x", b""));
    assert_eq!(find_from(b"a:b:c", b':', 0), 1);
    assert_eq!(find_from(b"a:b:c", b':', 2), 3);
    assert_eq!(find_from(b"a:b:c", b';', 0), 5);
    assert_eq!(copy_range(b"hello", 1, 3), b"el");
    assert_eq!(trim_bounds(b"  a b \t"), (2, 5));
    assert_eq!(trim_bounds(b"   "), (3, 3));
    assert_eq!(trim_bounds(b""), (0, 0));
}
