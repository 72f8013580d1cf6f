//! From a request to the environment of the program that answers it.

use vstd::prelude::*;
use crate::text::{
    ascii, lit, same_ignoring_case, equal_ignoring_case, bytes_equal, first_at, find_from,
    copy_range, append, decimal, decimal_text, has_prefix,
};
use crate::cgi::{Header, fields};

verus! {

/// One assignment of the environment.
#[derive(Debug)]
pub struct Variable {
    pub name: Vec<u8>,
    pub value: Vec<u8>,
}

/// The assignments of a list of variables, in order.
pub open spec fn pairs(vars: Seq<Variable>) -> Seq<(Seq<u8>, Seq<u8>)> {
    Seq::new(vars.len(), |i: int| (vars[i].name@, vars[i].value@))
}

/// The index of the first assignment to `name` at or after `from`, or the
/// length of `env`.
pub open spec fn index_of(env: Seq<(Seq<u8>, Seq<u8>)>, name: Seq<u8>, from: int) -> int
    decreases env.len() - from,
{
    if from >= env.len() {
        env.len() as int
    } else if env[from].0 == name {
        from
    } else {
        index_of(env, name, from + 1)
    }
}

/// `env` with `name` set to `value`: in place where `name` is assigned
/// already, at the end where it is not.
pub open spec fn put(env: Seq<(Seq<u8>, Seq<u8>)>, name: Seq<u8>, value: Seq<u8>) -> Seq<(Seq<u8>, Seq<u8>)> {
    let i = index_of(env, name, 0);
    if i < env.len() {
        env.update(i, (name, value))
    } else {
        env.push((name, value))
    }
}

/// No name is assigned twice.
pub open spec fn unique_names(env: Seq<(Seq<u8>, Seq<u8>)>) -> bool {
    forall|i: int, j: int| 0 <= i < j < env.len() ==> (#[trigger] env[i]).0 != (#[trigger] env[j]).0
}

/// `index_of` lies between `from` and the length, names an assignment to
/// `name` where it is below the length, and passes over none.
pub proof fn lemma_index_of(env: Seq<(Seq<u8>, Seq<u8>)>, name: Seq<u8>, from: int)
    requires
        0 <= from <= env.len(),
    ensures
        from <= index_of(env, name, from) <= env.len(),
        index_of(env, name, from) < env.len() ==> env[index_of(env, name, from)].0 == name,
        forall|k: int| from <= k < index_of(env, name, from) ==> (#[trigger] env[k]).0 != name,
    decreases env.len() - from,
{
    if from < env.len() && env[from].0 != name {
        lemma_index_of(env, name, from + 1);
    }
}

/// Setting a variable keeps the names unique, loses no assignment, and
/// leaves the name assigned to the value.
pub proof fn lemma_put_unique(env: Seq<(Seq<u8>, Seq<u8>)>, name: Seq<u8>, value: Seq<u8>)
    requires
        unique_names(env),
    ensures
        unique_names(put(env, name, value)),
        index_of(put(env, name, value), name, 0) < put(env, name, value).len(),
        put(env, name, value)[index_of(put(env, name, value), name, 0)] == (name, value),
        put(env, name, value).len() >= env.len(),
{
    lemma_index_of(env, name, 0);
    let out = put(env, name, value);
    let i = index_of(env, name, 0);
    assert forall|a: int, b: int| 0 <= a < b < out.len() implies (#[trigger] out[a]).0 != (#[trigger] out[b]).0 by {
        if a < env.len() {
            assert(out[a].0 == env[a].0);
        }
        if b < env.len() {
            assert(out[b].0 == env[b].0);
        }
    }
    lemma_index_of(out, name, 0);
    assert(out[i].0 == name);
    let j = index_of(out, name, 0);
    if j != i {
        assert(out[j].0 == name);
    }
}

/// The environment handed to the program: assignments in a fixed order, no
/// name twice.
#[derive(Debug)]
pub struct EnvironmentSet {
    pub vars: Vec<Variable>,
}

impl View for EnvironmentSet {
    type V = Seq<(Seq<u8>, Seq<u8>)>;

    open spec fn view(&self) -> Seq<(Seq<u8>, Seq<u8>)> {
        pairs(self.vars@)
    }
}

impl EnvironmentSet {
    /// The invariant: no name is assigned twice.
    pub open spec fn wf(&self) -> bool {
        unique_names(self@)
    }

    pub fn new() -> (r: EnvironmentSet)
        ensures
            r@ == Seq::<(Seq<u8>, Seq<u8>)>::empty(),
            r.wf(),
    {
        let r = EnvironmentSet { vars: Vec::new() };
        assert(r@ =~= Seq::empty());
        r
    }

    pub fn len(&self) -> (n: usize)
        ensures
            n == self@.len(),
    {
        self.vars.len()
    }

    /// The index of the assignment to `name`, or the number of assignments.
    pub fn position(&self, name: &[u8]) -> (i: usize)
        ensures
            i == index_of(self@, name@, 0),
            i <= self@.len(),
    {
        let mut i: usize = 0;
        while i < self.vars.len()
            invariant
                i <= self.vars@.len(),
                index_of(self@, name@, 0) == index_of(self@, name@, i as int),
            decreases self.vars@.len() - i,
        {
            if bytes_equal(self.vars[i].name.as_slice(), name) {
                return i;
            }
            i += 1;
        }
        i
    }

    /// The value assigned to `name`, if any.
    pub fn get(&self, name: &[u8]) -> (r: Option<&Vec<u8>>)
        ensures
            match r {
                Some(v) => index_of(self@, name@, 0) < self@.len() && v@ == self@[index_of(
                    self@,
                    name@,
                    0,
                )].1,
                None => index_of(self@, name@, 0) == self@.len(),
            },
    {
        let i = self.position(name);
        if i < self.vars.len() {
            Some(&self.vars[i].value)
        } else {
            None
        }
    }

    /// Assigns `value` to `name`, replacing an earlier assignment in place.
    pub fn set(&mut self, name: Vec<u8>, value: Vec<u8>)
        requires
            old(self).wf(),
        ensures
            final(self).wf(),
            final(self)@ == put(old(self)@, name@, value@),
    {
        let i = self.position(name.as_slice());
        proof {
            lemma_put_unique(self@, name@, value@);
        }
        if i < self.vars.len() {
            self.vars.set(i, Variable { name, value });
        } else {
            self.vars.push(Variable { name, value });
        }
        assert(self@ =~= put(old(self)@, name@, value@));
    }
}

/// A request as the gateway sees it. `target` is the path and query of the
/// request's URI as sent, and `None` where the URI has none.
#[derive(Debug)]
pub struct IncomingRequest {
    pub method: Vec<u8>,
    pub target: Option<Vec<u8>>,
    pub headers: Vec<Header>,
    pub body: Option<Vec<u8>>,
}

/// What the server was started with.
#[derive(Debug)]
pub struct ServerConfig {
    pub port: u16,
    pub debug: bool,
    pub mount: Vec<u8>,
}

/// Every failure of the gateway; each is answered with a 5xx response.
#[derive(Clone, Copy, Debug, PartialEq, Eq, Structural)]
pub enum GatewayError {
    MalformedRequest,
    Spawn,
    Io,
    HeaderFormat,
    InvalidStatus,
    Timeout,
}

/// An octet of visible ASCII, or a tab.
pub open spec fn is_visible(b: u8) -> bool {
    (32 <= b && b < 127) || b == 9
}

/// A header value as text: itself where it is visible ASCII throughout,
/// empty otherwise.
pub open spec fn text_of(value: Seq<u8>) -> Seq<u8> {
    if forall|i: int| 0 <= i < value.len() ==> is_visible(#[trigger] value[i]) {
        value
    } else {
        Seq::empty()
    }
}

/// The index of the first header named `name`, whatever the case of its
/// letters, at or after `from`; the length where there is none.
pub open spec fn named_at(headers: Seq<(Seq<u8>, Seq<u8>)>, name: Seq<u8>, from: int) -> int
    decreases headers.len() - from,
{
    if from >= headers.len() {
        headers.len() as int
    } else if same_ignoring_case(headers[from].0, name) {
        from
    } else {
        named_at(headers, name, from + 1)
    }
}

/// The text of the first header named `name`, if there is one.
pub open spec fn header_text(headers: Seq<(Seq<u8>, Seq<u8>)>, name: Seq<u8>) -> Option<Seq<u8>> {
    let i = named_at(headers, name, 0);
    if i < headers.len() {
        Some(text_of(headers[i].1))
    } else {
        None
    }
}

/// The host that the request names: the text of its `Host` header, or empty.
pub open spec fn real_host(headers: Seq<(Seq<u8>, Seq<u8>)>) -> Seq<u8> {
    match header_text(headers, ascii("Host"@)) {
        Some(v) => v,
        None => Seq::empty(),
    }
}

/// The path of a target: what stands before the first `?`, or `/` where
/// nothing does.
pub open spec fn path_of(target: Seq<u8>) -> Seq<u8> {
    let q = first_at(target, 63, 0);
    if q == 0 {
        seq![47u8]
    } else {
        target.subrange(0, q)
    }
}

/// The query of a target: what follows the first `?`, or empty.
pub open spec fn query_of(target: Seq<u8>) -> Seq<u8> {
    let q = first_at(target, 63, 0);
    if q < target.len() {
        target.subrange(q + 1, target.len() as int)
    } else {
        Seq::empty()
    }
}

/// The variables that every invocation gets, whatever headers were sent.
pub open spec fn fixed_env(method: Seq<u8>, target: Seq<u8>, host: Seq<u8>, port: u16) -> Seq<(Seq<u8>, Seq<u8>)> {
    let e = Seq::<(Seq<u8>, Seq<u8>)>::empty();
    let e = put(e, ascii("SERVER_SOFTWARE"@), ascii("rust"@));
    let e = put(e, ascii("SERVER_PROTOCOL"@), ascii("HTTP/1.1"@));
    let e = put(e, ascii("HTTP_HOST"@), host);
    let e = put(e, ascii("GATEWAY_INTERFACE"@), ascii("CGI/1.1"@));
    let e = put(e, ascii("REQUEST_METHOD"@), method);
    let e = put(e, ascii("QUERY_STRING"@), query_of(target));
    let e = put(e, ascii("REQUEST_URI"@), target);
    let e = put(e, ascii("PATH_INFO"@), path_of(target));
    let e = put(e, ascii("SCRIPT_NAME"@), ascii("."@));
    let e = put(e, ascii("SCRIPT_FILENAME"@), path_of(target));
    let e = put(e, ascii("SERVER_PORT"@), decimal(port as nat));
    let e = put(e, ascii("REMOTE_ADDR"@), host);
    put(e, ascii("SERVER_NAME"@), host)
}

/// `env` with the variable of one header: none for the header `Proxy`, for an empty
/// value, or where the name `HTTP_` and the header's name is one of the first
/// `fixed` variables.
pub open spec fn with_header(env: Seq<(Seq<u8>, Seq<u8>)>, fixed: int, h: (Seq<u8>, Seq<u8>)) -> Seq<(Seq<u8>, Seq<u8>)> {
    let name = ascii("HTTP_"@) + h.0;
    if same_ignoring_case(h.0, ascii("Proxy"@)) || h.1.len() == 0 || index_of(env, name, 0) < fixed {
        env
    } else {
        put(env, name, text_of(h.1))
    }
}

/// `env` with the variables of the first `upto` headers, taken in order.
pub open spec fn with_headers(env: Seq<(Seq<u8>, Seq<u8>)>, fixed: int, headers: Seq<(Seq<u8>, Seq<u8>)>, upto: int) -> Seq<(Seq<u8>, Seq<u8>)>
    decreases upto,
{
    if upto <= 0 {
        env
    } else {
        with_header(with_headers(env, fixed, headers, upto - 1), fixed, headers[upto - 1])
    }
}

/// `env` with `var` set to the text of the header `name`, where that header is there.
pub open spec fn with_special(env: Seq<(Seq<u8>, Seq<u8>)>, headers: Seq<(Seq<u8>, Seq<u8>)>, name: Seq<u8>, var: Seq<u8>) -> Seq<(Seq<u8>, Seq<u8>)> {
    match header_text(headers, name) {
        Some(v) => put(env, var, v),
        None => env,
    }
}

/// The environment of a request with the given method, target and headers.
pub open spec fn env_of(method: Seq<u8>, target: Seq<u8>, headers: Seq<(Seq<u8>, Seq<u8>)>, port: u16) -> Seq<(Seq<u8>, Seq<u8>)> {
    let base = fixed_env(method, target, real_host(headers), port);
    let e = with_headers(base, base.len() as int, headers, headers.len() as int);
    let e = with_special(e, headers, ascii("Content-Type"@), ascii("CONTENT_TYPE"@));
    with_special(e, headers, ascii("Content-Length"@), ascii("CONTENT_LENGTH"@))
}

/// The text of a header value.
pub fn value_text(value: &[u8]) -> (r: Vec<u8>)
    ensures
        r@ == text_of(value@),
{
    let mut i: usize = 0;
    while i < value.len()
        invariant
            i <= value@.len(),
            forall|k: int| 0 <= k < i ==> is_visible(#[trigger] value@[k]),
        decreases value@.len() - i,
    {
        let b: u8 = value[i];
        if !((32 <= b && b < 127) || b == 9) {
            return Vec::new();
        }
        i += 1;
    }
    let r = copy_range(value, 0, value.len());
    assert(r@ =~= value@);
    r
}

/// The text of the first header named `name`, if there is one.
pub fn find_header(headers: &Vec<Header>, name: &[u8]) -> (r: Option<Vec<u8>>)
    ensures
        match (r, header_text(fields(headers@), name@)) {
            (Some(v), Some(w)) => v@ == w,
            (None, None) => true,
            _ => false,
        },
{
    let mut i: usize = 0;
    while i < headers.len()
        invariant
            i <= headers@.len(),
            named_at(fields(headers@), name@, 0) == named_at(fields(headers@), name@, i as int),
        decreases headers@.len() - i,
    {
        if equal_ignoring_case(headers[i].name.as_slice(), name) {
            return Some(value_text(headers[i].value.as_slice()));
        }
        i += 1;
    }
    None
}

/// The host that the request names.
pub fn extract_real_host(headers: &Vec<Header>) -> (r: Vec<u8>)
    ensures
        r@ == real_host(fields(headers@)),
{
    proof {
        reveal_strlit("Host");
    }
    let name = lit("Host");
    match find_header(headers, name.as_slice()) {
        Some(v) => v,
        None => Vec::new(),
    }
}

/// The path of a target.
pub fn target_path(target: &[u8]) -> (r: Vec<u8>)
    ensures
        r@ == path_of(target@),
{
    let q = find_from(target, 63, 0);
    if q == 0 {
        let r = vec![47u8];
        assert(r@ =~= seq![47u8]);
        r
    } else {
        copy_range(target, 0, q)
    }
}

/// The query of a target.
pub fn target_query(target: &[u8]) -> (r: Vec<u8>)
    ensures
        r@ == query_of(target@),
{
    let q = find_from(target, 63, 0);
    if q < target.len() {
        copy_range(target, q + 1, target.len())
    } else {
        Vec::new()
    }
}

fn fixed_variables(method: &[u8], target: &[u8], host: &[u8], port: u16) -> (env: EnvironmentSet)
    ensures
        env.wf(),
        env@ == fixed_env(method@, target@, host@, port),
{
    proof {
        reveal_strlit("SERVER_SOFTWARE");
        reveal_strlit("rust");
        reveal_strlit("SERVER_PROTOCOL");
        reveal_strlit("HTTP/1.1");
        reveal_strlit("HTTP_HOST");
        reveal_strlit("GATEWAY_INTERFACE");
        reveal_strlit("CGI/1.1");
        reveal_strlit("REQUEST_METHOD");
        reveal_strlit("QUERY_STRING");
        reveal_strlit("REQUEST_URI");
        reveal_strlit("PATH_INFO");
        reveal_strlit("SCRIPT_NAME");
        reveal_strlit(".");
        reveal_strlit("SCRIPT_FILENAME");
        reveal_strlit("SERVER_PORT");
        reveal_strlit("REMOTE_ADDR");
        reveal_strlit("SERVER_NAME");
    }
    let mut env = EnvironmentSet::new();
    env.set(lit("SERVER_SOFTWARE"), lit("rust"));
    env.set(lit("SERVER_PROTOCOL"), lit("HTTP/1.1"));
    env.set(lit("HTTP_HOST"), copy_range(host, 0, host.len()));
    env.set(lit("GATEWAY_INTERFACE"), lit("CGI/1.1"));
    env.set(lit("REQUEST_METHOD"), copy_range(method, 0, method.len()));
    env.set(lit("QUERY_STRING"), target_query(target));
    env.set(lit("REQUEST_URI"), copy_range(target, 0, target.len()));
    env.set(lit("PATH_INFO"), target_path(target));
    env.set(lit("SCRIPT_NAME"), lit("."));
    env.set(lit("SCRIPT_FILENAME"), target_path(target));
    env.set(lit("SERVER_PORT"), decimal_text(port as u64));
    env.set(lit("REMOTE_ADDR"), copy_range(host, 0, host.len()));
    env.set(lit("SERVER_NAME"), copy_range(host, 0, host.len()));
    proof {
        assert(host@.subrange(0, host@.len() as int) =~= host@);
        assert(method@.subrange(0, method@.len() as int) =~= method@);
        assert(target@.subrange(0, target@.len() as int) =~= target@);
    }
    env
}

fn add_header(env: &mut EnvironmentSet, fixed: usize, h: &Header)
    requires
        old(env).wf(),
    ensures
        final(env).wf(),
        final(env)@ == with_header(old(env)@, fixed as int, h@),
{
    proof {
        reveal_strlit("Proxy");
        reveal_strlit("HTTP_");
    }
    let reserved = lit("Proxy");
    if equal_ignoring_case(h.name.as_slice(), reserved.as_slice()) || h.value.len() == 0 {
        return ;
    }
    let mut name = lit("HTTP_");
    append(&mut name, h.name.as_slice());
    if env.position(name.as_slice()) < fixed {
        return ;
    }
    env.set(name, value_text(h.value.as_slice()));
}

fn add_special(env: &mut EnvironmentSet, headers: &Vec<Header>, name: &[u8], var: Vec<u8>)
    requires
        old(env).wf(),
    ensures
        final(env).wf(),
        final(env)@ == with_special(old(env)@, fields(headers@), name@, var@),
{
    match find_header(headers, name) {
        Some(v) => {
            env.set(var, v);
        },
        None => {},
    }
}

/// Maps a request to the environment of its invocation. Fails, with
/// `MalformedRequest`, exactly where the request has no target.
pub fn map_environment(req: &IncomingRequest, config: &ServerConfig) -> (r: Result<EnvironmentSet, GatewayError>)
    ensures
        match r {
            Ok(env) => req.target is Some && env.wf() && env@ == env_of(
                req.method@,
                req.target->Some_0@,
                fields(req.headers@),
                config.port,
            ),
            Err(e) => req.target is None && e == GatewayError::MalformedRequest,
        },
{
    let target = match &req.target {
        Some(t) => t,
        None => {
            return Err(GatewayError::MalformedRequest);
        },
    };
    let host = extract_real_host(&req.headers);
    let mut env = fixed_variables(req.method.as_slice(), target.as_slice(), host.as_slice(), config.port);
    let fixed = env.len();
    let ghost base = env@;
    let mut i: usize = 0;
    while i < req.headers.len()
        invariant
            i <= req.headers@.len(),
            env.wf(),
            env@ == with_headers(base, fixed as int, fields(req.headers@), i as int),
        decreases req.headers@.len() - i,
    {
        add_header(&mut env, fixed, &req.headers[i]);
        i += 1;
    }
    proof {
        reveal_strlit("Content-Type");
        reveal_strlit("CONTENT_TYPE");
        reveal_strlit("Content-Length");
        reveal_strlit("CONTENT_LENGTH");
    }
    let name = lit("Content-Type");
    add_special(&mut env, &req.headers, name.as_slice(), lit("CONTENT_TYPE"));
    let name = lit("Content-Length");
    add_special(&mut env, &req.headers, name.as_slice(), lit("CONTENT_LENGTH"));
    Ok(env)
}

/// What the gateway does with a request.
#[derive(Debug)]
pub enum Plan {
    /// The path is outside the mount: send the client to the mount.
    Redirect,
    /// Run the program with this environment, and the request's body as its input.
    Invoke(EnvironmentSet),
}

/// Whether a request's path lies under the mount prefix.
pub open spec fn under_mount(target: Option<Vec<u8>>, mount: Seq<u8>) -> bool {
    target is Some && mount.len() <= path_of(target->Some_0@).len() && path_of(target->Some_0@).subrange(
        0,
        mount.len() as int,
    ) == mount
}

/// Decides between the redirect to the mount and the invocation.
pub fn plan(req: &IncomingRequest, config: &ServerConfig) -> (r: Plan)
    ensures
        match r {
            Plan::Redirect => !under_mount(req.target, config.mount@),
            Plan::Invoke(env) => under_mount(req.target, config.mount@) && env.wf() && env@ == env_of(
                req.method@,
                req.target->Some_0@,
                fields(req.headers@),
                config.port,
            ),
        },
{
    match &req.target {
        Some(t) => {
            let path = target_path(t.as_slice());
            if !has_prefix(path.as_slice(), config.mount.as_slice()) {
                return Plan::Redirect;
            }
        },
        None => {
            return Plan::Redirect;
        },
    }
    match map_environment(req, config) {
        Ok(env) => Plan::Invoke(env),
        Err(_) => Plan::Redirect,
    }
}

/// The status with which a failure is answered: always 500.
pub fn failure_status(e: GatewayError) -> (r: u16)
    ensures
        r == 500,
{
    500
}

/// The first assignment to `name` stands at `at` where `at` holds it and
/// nothing before `at` does; `at` may be the length.
pub proof fn lemma_index_of_is(env: Seq<(Seq<u8>, Seq<u8>)>, name: Seq<u8>, from: int, at: int)
    requires
        0 <= from <= at <= env.len(),
        forall|k: int| from <= k < at ==> (#[trigger] env[k]).0 != name,
        at < env.len() ==> env[at].0 == name,
    ensures
        index_of(env, name, from) == at,
    decreases at - from,
{
    if from < at {
        lemma_index_of_is(env, name, from + 1, at);
    }
}

/// Setting one variable leaves every other where it was, with its value.
pub proof fn lemma_put_other(env: Seq<(Seq<u8>, Seq<u8>)>, name: Seq<u8>, value: Seq<u8>, other: Seq<u8>)
    requires
        other != name,
    ensures
        put(env, name, value).len() >= env.len(),
        index_of(env, other, 0) < env.len() ==> index_of(put(env, name, value), other, 0) == index_of(
            env,
            other,
            0,
        ) && put(env, name, value)[index_of(env, other, 0)] == env[index_of(env, other, 0)],
{
    lemma_index_of(env, name, 0);
    lemma_index_of(env, other, 0);
    let out = put(env, name, value);
    let at = index_of(env, other, 0);
    if at < env.len() {
        assert forall|k: int| 0 <= k < at implies (#[trigger] out[k]).0 != other by {
            assert(out[k].0 == env[k].0);
        }
        assert(out[at] == env[at]);
        lemma_index_of_is(out, other, 0, at);
    }
}

/// The variables of headers never touch the first `fixed` assignments: no
/// header overrides a fixed variable.
pub proof fn law_headers_keep_fixed(env: Seq<(Seq<u8>, Seq<u8>)>, fixed: int, headers: Seq<(Seq<u8>, Seq<u8>)>, upto: int)
    requires
        0 <= fixed <= env.len(),
        0 <= upto <= headers.len(),
    ensures
        with_headers(env, fixed, headers, upto).len() >= env.len(),
        forall|i: int| 0 <= i < fixed ==> with_headers(env, fixed, headers, upto)[i] == env[i],
    decreases upto,
{
    if upto > 0 {
        law_headers_keep_fixed(env, fixed, headers, upto - 1);
        let e = with_headers(env, fixed, headers, upto - 1);
        lemma_index_of(e, ascii("HTTP_"@) + headers[upto - 1].0, 0);
    }
}

/// A request's `Content-Type` is handed to the program as `CONTENT_TYPE`,
/// unchanged where it is visible text.
pub proof fn law_content_type_is_handed_on(method: Seq<u8>, target: Seq<u8>, headers: Seq<(Seq<u8>, Seq<u8>)>, port: u16)
    requires
        header_text(headers, ascii("Content-Type"@)) is Some,
    ensures
        ({
            let env = env_of(method, target, headers, port);
            let i = index_of(env, ascii("CONTENT_TYPE"@), 0);
            i < env.len() && env[i].1 == header_text(headers, ascii("Content-Type"@))->Some_0
        }),
{
    reveal_strlit("CONTENT_TYPE");
    reveal_strlit("CONTENT_LENGTH");
    let base = fixed_env(method, target, real_host(headers), port);
    let e0 = with_headers(base, base.len() as int, headers, headers.len() as int);
    let v = header_text(headers, ascii("Content-Type"@))->Some_0;
    let name = ascii("CONTENT_TYPE"@);
    let e1 = put(e0, name, v);
    lemma_index_of(e0, name, 0);
    let at = index_of(e0, name, 0);
    assert forall|k: int| 0 <= k < at implies (#[trigger] e1[k]).0 != name by {
        assert(e1[k].0 == e0[k].0);
    }
    assert(at < e1.len() && e1[at] == (name, v));
    lemma_index_of_is(e1, name, 0, at);
    assert(e1 == with_special(e0, headers, ascii("Content-Type"@), name));
    let other = ascii("CONTENT_LENGTH"@);
    assert(other.len() == 14 && name.len() == 12);
    assert(other != name);
    match header_text(headers, ascii("Content-Length"@)) {
        Some(w) => {
            lemma_put_other(e1, other, w, name);
            assert(env_of(method, target, headers, port) == put(e1, other, w));
        },
        None => {
            assert(env_of(method, target, headers, port) == e1);
        },
    }
}

} // verus!
