//! The guard in front of the gateway: a password at login, a token in a
//! cookie afterwards. Tokens are made and judged elsewhere; the guard finds
//! the candidates and decides on the verdicts.

use vstd::prelude::*;
use crate::text::{
    ascii, lit, first_at, find_from, lemma_first_at_bounds, lemma_first_at_is, trimmed,
    trim_bounds, is_space, skip_spaces, drop_spaces, bytes_equal, copy_range, append, decimal,
    decimal_text,
};
use crate::cgi::{Header, fields};
use crate::env::{header_text, find_header};

verus! {

/// Why the guard turned a request away. Either way the client is sent to the
/// login page and told nothing.
#[derive(Clone, Copy, Debug, PartialEq, Eq, Structural)]
pub enum DenyReason {
    /// The request carried no candidate token.
    NoToken,
    /// It carried candidates, and none was accepted.
    Rejected,
}

/// The guard's answer to a request.
#[derive(Clone, Copy, Debug, PartialEq, Eq, Structural)]
pub enum AccessDecision {
    Allow,
    Deny(DenyReason),
}

/// Whether a submitted password opens the guard: always where none is
/// configured, else exactly where it equals the configured one octet for octet.
pub fn authentication(configured: &Option<Vec<u8>>, auth_password: &[u8]) -> (ok: bool)
    ensures
        ok == (configured is None || configured->Some_0@ == auth_password@),
{
    match configured {
        Some(p) => bytes_equal(p.as_slice(), auth_password),
        None => true,
    }
}

/// The name of the cookie that carries the token.
pub open spec fn cookie_name() -> Seq<u8> {
    ascii("access_token"@)
}

/// The token of one cookie segment: the segment must hold exactly one `=`,
/// with the cookie's name, exactly, before it.
pub open spec fn token_in(seg: Seq<u8>) -> Option<Seq<u8>> {
    let eq = first_at(seg, 61, 0);
    if eq < seg.len() && first_at(seg, 61, eq + 1) == seg.len() && seg.subrange(0, eq) == cookie_name() {
        Some(seg.subrange(eq + 1, seg.len() as int))
    } else {
        None
    }
}

/// The candidate tokens in a `Cookie` header, in order, read from the
/// segment that begins at `from`: segments are parted by `;` and trimmed.
pub open spec fn candidates_from(s: Seq<u8>, from: int) -> Seq<Seq<u8>>
    decreases s.len() - from,
    when 0 <= from
    via candidates_from_decreases
{
    if from > s.len() {
        Seq::empty()
    } else {
        let e = first_at(s, 59, from);
        let head = match token_in(trimmed(s.subrange(from, e))) {
            Some(t) => seq![t],
            None => Seq::empty(),
        };
        if e >= s.len() {
            head
        } else {
            head + candidates_from(s, e + 1)
        }
    }
}

#[via_fn]
proof fn candidates_from_decreases(s: Seq<u8>, from: int) {
    if from <= s.len() {
        lemma_first_at_bounds(s, 59, from);
    }
}

/// The candidate tokens in a `Cookie` header.
pub open spec fn candidates(s: Seq<u8>) -> Seq<Seq<u8>> {
    candidates_from(s, 0)
}

/// The octet strings of a list, in order.
pub open spec fn views(v: Seq<Vec<u8>>) -> Seq<Seq<u8>> {
    Seq::new(v.len(), |i: int| v[i]@)
}

/// The token of one trimmed cookie segment, if it is the access cookie.
pub fn segment_token(seg: &[u8]) -> (r: Option<Vec<u8>>)
    ensures
        match (r, token_in(seg@)) {
            (Some(t), Some(u)) => t@ == u,
            (None, None) => true,
            _ => false,
        },
{
    let eq = find_from(seg, 61, 0);
    if eq >= seg.len() {
        return None;
    }
    if find_from(seg, 61, eq + 1) != seg.len() {
        return None;
    }
    proof {
        reveal_strlit("access_token");
    }
    let name = lit("access_token");
    if bytes_equal(&seg[0..eq], name.as_slice()) {
        Some(copy_range(seg, eq + 1, seg.len()))
    } else {
        None
    }
}

/// The candidate tokens in the text of a `Cookie` header, in order.
pub fn cookie_candidates(cookie: &[u8]) -> (r: Vec<Vec<u8>>)
    ensures
        views(r@) == candidates(cookie@),
{
    let mut out: Vec<Vec<u8>> = Vec::new();
    let mut pos: usize = 0;
    assert(views(out@) =~= Seq::empty());
    loop
        invariant_except_break
            candidates(cookie@) == views(out@) + candidates_from(cookie@, pos as int),
        invariant
            pos <= cookie@.len(),
        ensures
            views(out@) == candidates(cookie@),
        decreases cookie@.len() - pos,
    {
        let e = find_from(cookie, 59, pos);
        let seg = &cookie[pos..e];
        let (a, b) = trim_bounds(seg);
        let ghost before = views(out@);
        let ghost rest = if e >= cookie@.len() {
            Seq::<Seq<u8>>::empty()
        } else {
            candidates_from(cookie@, e + 1)
        };
        match segment_token(&seg[a..b]) {
            Some(t) => {
                out.push(t);
                assert(views(out@) =~= before + seq![t@]);
                assert(before + (seq![t@] + rest) =~= views(out@) + rest);
            },
            None => {
                assert(before + (Seq::<Seq<u8>>::empty() + rest) =~= views(out@) + rest);
            },
        }
        if e >= cookie.len() {
            assert(views(out@) + rest =~= views(out@));
            break ;
        }
        pos = e + 1;
    }
    out
}

/// The candidate tokens that a request carries: those of its first `Cookie`
/// header, none where it has no such header.
pub open spec fn request_candidates(headers: Seq<(Seq<u8>, Seq<u8>)>) -> Seq<Seq<u8>> {
    match header_text(headers, ascii("Cookie"@)) {
        Some(c) => candidates(c),
        None => Seq::empty(),
    }
}

/// The candidate tokens that a request carries, in order.
pub fn candidate_tokens(headers: &Vec<Header>) -> (r: Vec<Vec<u8>>)
    ensures
        views(r@) == request_candidates(fields(headers@)),
{
    proof {
        reveal_strlit("Cookie");
    }
    let name = lit("Cookie");
    match find_header(headers, name.as_slice()) {
        Some(c) => cookie_candidates(c.as_slice()),
        None => {
            let r: Vec<Vec<u8>> = Vec::new();
            assert(views(r@) =~= Seq::empty());
            r
        },
    }
}

/// The guard's answer, given whether a password is configured and, for each
/// candidate token in order, whether it was accepted.
pub open spec fn decision(password_set: bool, verdicts: Seq<bool>) -> AccessDecision {
    if !password_set || exists|i: int| 0 <= i < verdicts.len() && #[trigger] verdicts[i] {
        AccessDecision::Allow
    } else if verdicts.len() == 0 {
        AccessDecision::Deny(DenyReason::NoToken)
    } else {
        AccessDecision::Deny(DenyReason::Rejected)
    }
}

/// Decides on a request: allowed where no password is configured, or where
/// one of its candidate tokens was accepted.
pub fn decide(password_set: bool, verdicts: &[bool]) -> (d: AccessDecision)
    ensures
        d == decision(password_set, verdicts@),
{
    if !password_set {
        return AccessDecision::Allow;
    }
    let mut i: usize = 0;
    while i < verdicts.len()
        invariant
            i <= verdicts@.len(),
            forall|k: int| 0 <= k < i ==> !(#[trigger] verdicts@[k]),
        decreases verdicts@.len() - i,
    {
        if verdicts[i] {
            return AccessDecision::Allow;
        }
        i += 1;
    }
    if verdicts.len() == 0 {
        AccessDecision::Deny(DenyReason::NoToken)
    } else {
        AccessDecision::Deny(DenyReason::Rejected)
    }
}

/// Where a denied client is sent.
pub open spec fn login_path() -> Seq<u8> {
    ascii("/login"@)
}

/// What the guard does to a request.
#[derive(Debug)]
pub enum GateAction {
    /// Hand the request on.
    Forward,
    /// Redirect to the given path.
    Redirect(Vec<u8>),
}

/// The action for a decision: a denial, whatever its reason, is the redirect
/// to the login page.
pub fn gate_action(d: AccessDecision) -> (a: GateAction)
    ensures
        match a {
            GateAction::Forward => d == AccessDecision::Allow,
            GateAction::Redirect(to) => d != AccessDecision::Allow && to@ == login_path(),
        },
{
    proof {
        reveal_strlit("/login");
    }
    match d {
        AccessDecision::Allow => GateAction::Forward,
        AccessDecision::Deny(_) => GateAction::Redirect(lit("/login")),
    }
}

/// The `Set-Cookie` value that hands a token to the client.
pub open spec fn set_cookie_value(token: Seq<u8>, max_age: u64) -> Seq<u8> {
    ascii("access_token="@) + token + ascii("; Max-Age="@) + decimal(max_age as nat) + ascii(
        "; Path=/; HttpOnly"@,
    )
}

/// The answer to a login.
#[derive(Debug)]
pub enum LoginOutcome {
    /// Redirect to the application, with this `Set-Cookie` value.
    Welcome(Vec<u8>),
    /// Redirect back to the login page.
    Retry,
}

/// The answer to a login, given whether the password opened the guard and the
/// token that was made for it, if one could be made.
pub fn login_outcome(authenticated: bool, token: Option<Vec<u8>>, max_age: u64) -> (r: LoginOutcome)
    ensures
        match r {
            LoginOutcome::Welcome(c) => authenticated && token is Some && c@ == set_cookie_value(
                token->Some_0@,
                max_age,
            ),
            LoginOutcome::Retry => !authenticated || token is None,
        },
{
    if !authenticated {
        return LoginOutcome::Retry;
    }
    match token {
        Some(t) => {
            proof {
                reveal_strlit("access_token=");
                reveal_strlit("; Max-Age=");
                reveal_strlit("; Path=/; HttpOnly");
            }
            let mut c = lit("access_token=");
            append(&mut c, t.as_slice());
            let part = lit("; Max-Age=");
            append(&mut c, part.as_slice());
            let part = decimal_text(max_age);
            append(&mut c, part.as_slice());
            let part = lit("; Path=/; HttpOnly");
            append(&mut c, part.as_slice());
            LoginOutcome::Welcome(c)
        },
        None => LoginOutcome::Retry,
    }
}

/// With no password configured every request is allowed, whatever it carries.
pub proof fn law_open_gate(verdicts: Seq<bool>)
    ensures
        decision(false, verdicts) == AccessDecision::Allow,
{
}

/// With a password configured, a request none of whose candidates was
/// accepted is denied, and a request with an accepted candidate is allowed.
pub proof fn law_closed_gate(verdicts: Seq<bool>)
    ensures
        (forall|i: int| 0 <= i < verdicts.len() ==> !(#[trigger] verdicts[i])) ==> decision(true, verdicts)
            != AccessDecision::Allow,
        (exists|i: int| 0 <= i < verdicts.len() && #[trigger] verdicts[i]) ==> decision(true, verdicts)
            == AccessDecision::Allow,
{
}

/// The `Set-Cookie` value of a login begins with the cookie `access_token=<token>`.
pub proof fn law_set_cookie_names_token(token: Seq<u8>, max_age: u64)
    ensures
        set_cookie_value(token, max_age).len() >= 13 + token.len(),
        set_cookie_value(token, max_age).subrange(0, 13 + token.len() as int) == ascii("access_token="@) + token,
{
    reveal_strlit("access_token=");
    let head = ascii("access_token="@) + token;
    assert(set_cookie_value(token, max_age).subrange(0, 13 + token.len() as int) =~= head);
}

/// A token without `;`, `=` or white space, sent back as the cookie
/// `access_token=<token>`, is the one candidate of that cookie header.
pub proof fn law_cookie_comes_back(token: Seq<u8>)
    requires
        forall|i: int| 0 <= i < token.len() ==> token[i] != 59 && token[i] != 61 && !is_space(token[i]),
    ensures
        candidates(ascii("access_token="@) + token) == seq![token],
{
    reveal_strlit("access_token=");
    reveal_strlit("access_token");
    let s = ascii("access_token="@) + token;
    let n = s.len() as int;
    assert(n == 13 + token.len());
    assert forall|k: int| 0 <= k < n implies s[k] != 59 by {
        if k >= 13 {
            assert(s[k] == token[k - 13]);
        }
    }
    lemma_first_at_is(s, 59, 0, n);
    assert(s.subrange(0, n) =~= s);
    assert(!is_space(s[0]));
    assert(skip_spaces(s, 0) == 0);
    assert(!is_space(s[n - 1])) by {
        if n > 13 {
            assert(s[n - 1] == token[n - 14]);
        }
    }
    assert(drop_spaces(s, 0, n) == n);
    assert(trimmed(s) =~= s);
    assert forall|k: int| 0 <= k < 12 implies s[k] != 61 by {}
    lemma_first_at_is(s, 61, 0, 12);
    assert forall|k: int| 13 <= k < n implies s[k] != 61 by {
        assert(s[k] == token[k - 13]);
    }
    lemma_first_at_is(s, 61, 13, n);
    assert(s.subrange(0, 12) =~= cookie_name());
    assert(s.subrange(13, n) =~= token);
    assert(token_in(s) == Some(token));
    assert(candidates(s) =~= seq![token]);
}

} // verus!
