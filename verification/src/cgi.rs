//! Reading a CGI program's output: the header block, line by line, and the
//! place where the body begins.

use vstd::prelude::*;
use vstd::utf8::valid_utf8;
use crate::text::{
    ascii, first_at, lemma_first_at_bounds, lemma_ascii_is_utf8, lit, find_from, bytes_equal,
    has_prefix, copy_range,
};
use crate::outside::{
    legal_header_name, legal_header_value, legal_status, header_name_accepted,
    header_value_accepted, status_accepted, utf8_accepted,
};

verus! {

/// Why a program's output could not be turned into a response.
#[derive(Clone, Copy, Debug, PartialEq, Eq, Structural)]
pub enum CgiError {
    /// A line of the header block is not text.
    Io,
    /// A header line has no colon, nothing after the colon, or an illegal
    /// name or value.
    HeaderFormat,
    /// The status is not three decimal characters, or no HTTP status.
    InvalidStatus,
}

/// One header field, name and value as octets.
#[derive(Debug)]
pub struct Header {
    pub name: Vec<u8>,
    pub value: Vec<u8>,
}

impl View for Header {
    type V = (Seq<u8>, Seq<u8>);

    open spec fn view(&self) -> (Seq<u8>, Seq<u8>) {
        (self.name@, self.value@)
    }
}

/// The fields of a list of headers, in order.
pub open spec fn fields(headers: Seq<Header>) -> Seq<(Seq<u8>, Seq<u8>)> {
    headers.map_values(|h: Header| h@)
}

/// What a line of the header block means.
pub enum Line {
    /// The empty line that ends the block.
    End,
    /// A diagnostic line, passed over.
    Skip,
    /// A `Status` line with the number it gives.
    Status(u16),
    /// Any other header, legal as an HTTP header.
    Field(Header),
    /// A line that fails the whole output.
    Bad(CgiError),
}

/// The mathematical content of a [`Line`].
pub ghost enum LineKind {
    End,
    Skip,
    Status(u16),
    Field(Seq<u8>, Seq<u8>),
    Bad(CgiError),
}

impl View for Line {
    type V = LineKind;

    open spec fn view(&self) -> LineKind {
        match *self {
            Line::End => LineKind::End,
            Line::Skip => LineKind::Skip,
            Line::Status(n) => LineKind::Status(n),
            Line::Field(h) => LineKind::Field(h.name@, h.value@),
            Line::Bad(e) => LineKind::Bad(e),
        }
    }
}

/// A decimal digit's value.
pub open spec fn is_digit(b: u8) -> bool {
    48 <= b && b <= 57
}

/// The number that the first three octets of `v` spell: three digits, or a
/// plus sign and two digits. `None` when they spell none, or `v` is shorter.
pub open spec fn status_number(v: Seq<u8>) -> Option<u16> {
    if v.len() < 3 || !is_digit(v[1]) || !is_digit(v[2]) {
        None
    } else if is_digit(v[0]) {
        Some(((v[0] - 48) * 100 + (v[1] - 48) * 10 + (v[2] - 48)) as u16)
    } else if v[0] == 43 {
        Some(((v[1] - 48) * 10 + (v[2] - 48)) as u16)
    } else {
        None
    }
}

/// The prefix of a diagnostic line.
pub open spec fn debug_prefix() -> Seq<u8> {
    ascii("getEnvs "@)
}

/// The name of the status header.
pub open spec fn status_name() -> Seq<u8> {
    ascii("Status"@)
}

/// What one line, taken without its line ending, means.
///
/// The value of a header is what follows the colon, less exactly one octet;
/// that octet must be there and must be ASCII.
pub open spec fn line_kind(line: Seq<u8>) -> LineKind {
    let colon = first_at(line, 58, 0);
    let name = line.subrange(0, colon);
    let value = line.subrange(colon + 2, line.len() as int);
    if !valid_utf8(line) {
        LineKind::Bad(CgiError::Io)
    } else if line.len() == 0 {
        LineKind::End
    } else if debug_prefix().len() <= line.len() && line.subrange(0, debug_prefix().len() as int)
        == debug_prefix() {
        LineKind::Skip
    } else if colon + 1 >= line.len() || line[colon + 1] >= 128 {
        LineKind::Bad(CgiError::HeaderFormat)
    } else if name == status_name() {
        match status_number(value) {
            Some(n) => LineKind::Status(n),
            None => LineKind::Bad(CgiError::InvalidStatus),
        }
    } else if legal_header_name(name) && legal_header_value(value) {
        LineKind::Field(name, value)
    } else {
        LineKind::Bad(CgiError::HeaderFormat)
    }
}

/// The line that begins at `from`, without its `\n` or `\r\n`.
pub open spec fn line_at(s: Seq<u8>, from: int) -> Seq<u8> {
    let e = first_at(s, 10, from);
    if e < s.len() && e > from && s[e - 1] == 13 {
        s.subrange(from, e - 1)
    } else {
        s.subrange(from, e)
    }
}

/// Where the line after the one at `from` begins.
pub open spec fn after_line(s: Seq<u8>, from: int) -> int {
    let e = first_at(s, 10, from);
    if e < s.len() {
        e + 1
    } else {
        e
    }
}

/// The mathematical content of a [`CgiResponse`].
pub ghost struct Parsed {
    pub status: u16,
    pub headers: Seq<(Seq<u8>, Seq<u8>)>,
    pub body_start: int,
}

/// The response once the header block has ended: the status must be one that
/// HTTP can carry.
pub open spec fn finished(status: u16, headers: Seq<(Seq<u8>, Seq<u8>)>, body_start: int) -> Result<
    Parsed,
    CgiError,
> {
    if legal_status(status) {
        Ok(Parsed { status, headers, body_start })
    } else {
        Err(CgiError::InvalidStatus)
    }
}

/// The response that the output `s` gives when read from the line at `from`
/// on, with `status` and `headers` gathered so far.
pub open spec fn parse_from(s: Seq<u8>, from: int, status: u16, headers: Seq<(Seq<u8>, Seq<u8>)>) -> Result<Parsed, CgiError>
    decreases s.len() - from,
    when 0 <= from
    via parse_from_decreases
{
    if from >= s.len() {
        finished(status, headers, s.len() as int)
    } else {
        let next = after_line(s, from);
        match line_kind(line_at(s, from)) {
            LineKind::Bad(e) => Err(e),
            LineKind::End => finished(status, headers, next),
            LineKind::Skip => parse_from(s, next, status, headers),
            LineKind::Status(n) => parse_from(s, next, n, headers),
            LineKind::Field(n, v) => parse_from(s, next, status, headers.push((n, v))),
        }
    }
}

#[via_fn]
proof fn parse_from_decreases(s: Seq<u8>, from: int, status: u16, headers: Seq<(Seq<u8>, Seq<u8>)>) {
    if from < s.len() {
        lemma_first_at_bounds(s, 10, from);
    }
}

/// The response that the whole output `s` gives: status 200 unless a
/// `Status` line says otherwise, the last such line deciding.
pub open spec fn parse(s: Seq<u8>) -> Result<Parsed, CgiError> {
    parse_from(s, 0, 200, Seq::empty())
}

/// A program's output, read: the status, the headers in the order they came,
/// and the offset in the output at which the body begins.
#[derive(Debug)]
pub struct CgiResponse {
    pub status: u16,
    pub headers: Vec<Header>,
    pub body_start: usize,
}

impl View for CgiResponse {
    type V = Parsed;

    open spec fn view(&self) -> Parsed {
        Parsed { status: self.status, headers: fields(self.headers@), body_start: self.body_start as int }
    }
}

impl CgiResponse {
    /// The body: the rest of `output` from `body_start` on, borrowed, not copied.
    pub fn body<'a>(&self, output: &'a [u8]) -> (r: &'a [u8])
        requires
            self.body_start <= output@.len(),
        ensures
            r@ == output@.subrange(self.body_start as int, output@.len() as int),
    {
        &output[self.body_start..output.len()]
    }
}

/// Reads the status out of the first three octets of a `Status` value.
pub fn read_status(v: &[u8]) -> (r: Option<u16>)
    ensures
        r == status_number(v@),
{
    if v.len() < 3 {
        return None;
    }
    let a: u8 = v[0];
    let b: u8 = v[1];
    let c: u8 = v[2];
    if b < 48 || b > 57 || c < 48 || c > 57 {
        return None;
    }
    let low: u16 = ((b - 48) as u16) * 10 + ((c - 48) as u16);
    if 48 <= a && a <= 57 {
        Some(((a - 48) as u16) * 100 + low)
    } else if a == 43 {
        Some(low)
    } else {
        None
    }
}

/// Says what one line of the header block means.
pub fn classify_line(line: &[u8]) -> (r: Line)
    ensures
        r@ == line_kind(line@),
{
    if !utf8_accepted(line) {
        return Line::Bad(CgiError::Io);
    }
    if line.len() == 0 {
        return Line::End;
    }
    proof {
        reveal_strlit("getEnvs ");
        reveal_strlit("Status");
    }
    let prefix = lit("getEnvs ");
    if has_prefix(line, prefix.as_slice()) {
        return Line::Skip;
    }
    let colon = find_from(line, 58, 0);
    if colon >= line.len() || colon + 1 >= line.len() || line[colon + 1] >= 128 {
        return Line::Bad(CgiError::HeaderFormat);
    }
    let name = &line[0..colon];
    let value = &line[colon + 2..line.len()];
    let status = lit("Status");
    if bytes_equal(name, status.as_slice()) {
        match read_status(value) {
            Some(n) => Line::Status(n),
            None => Line::Bad(CgiError::InvalidStatus),
        }
    } else if header_name_accepted(name) && header_value_accepted(value) {
        Line::Field(Header { name: copy_range(line, 0, colon), value: copy_range(line, colon + 2, line.len()) })
    } else {
        Line::Bad(CgiError::HeaderFormat)
    }
}

/// The result of a finished header block.
fn finish(status: u16, headers: Vec<Header>, body_start: usize) -> (r: Result<CgiResponse, CgiError>)
    ensures
        agrees(r, finished(status, fields(headers@), body_start as int)),
{
    if status_accepted(status) {
        Ok(CgiResponse { status, headers, body_start })
    } else {
        Err(CgiError::InvalidStatus)
    }
}

/// The executable result `r` is the mathematical result `p`.
pub open spec fn agrees(r: Result<CgiResponse, CgiError>, p: Result<Parsed, CgiError>) -> bool {
    match (r, p) {
        (Ok(resp), Ok(parsed)) => resp@ == parsed,
        (Err(e), Err(f)) => e == f,
        _ => false,
    }
}

/// Reads a program's output: header lines up to the first empty line, then
/// the body. Fails on the first line that is not text, has no colon or
/// nothing after it, gives an unreadable status or an illegal header; and,
/// once the block has ended, on a status that HTTP cannot carry.
pub fn parse_cgi_response(output: &[u8]) -> (r: Result<CgiResponse, CgiError>)
    ensures
        agrees(r, parse(output@)),
        r is Ok ==> r->Ok_0.body_start <= output@.len() && legal_status(r->Ok_0.status) && all_legal(
            r->Ok_0@.headers,
        ) && free_of_status(r->Ok_0@.headers),
{
    let mut pos: usize = 0;
    let mut status: u16 = 200;
    let mut headers: Vec<Header> = Vec::new();
    assert(fields(headers@) =~= Seq::empty());
    while pos < output.len()
        invariant
            pos <= output@.len(),
            parse(output@) == parse_from(output@, pos as int, status, fields(headers@)),
        decreases output@.len() - pos,
    {
        let e = find_from(output, 10, pos);
        let next: usize = if e < output.len() { e + 1 } else { e };
        let stop: usize = if e < output.len() && e > pos && output[e - 1] == 13 { e - 1 } else { e };
        let line = &output[pos..stop];
        match classify_line(line) {
            Line::Bad(err) => {
                return Err(err);
            },
            Line::End => {
                proof {
                    lemma_headers_stay_clean(output@, 0, 200, Seq::empty());
                }
                return finish(status, headers, next);
            },
            Line::Skip => {},
            Line::Status(n) => {
                status = n;
            },
            Line::Field(h) => {
                let ghost before = fields(headers@);
                headers.push(h);
                assert(fields(headers@) =~= before.push(h@));
            },
        }
        pos = next;
    }
    proof {
        lemma_headers_stay_clean(output@, 0, 200, Seq::empty());
    }
    finish(status, headers, pos)
}

/// Whether a `Status` line stands in the header block read from `from` on.
pub open spec fn has_status_line(s: Seq<u8>, from: int) -> bool
    decreases s.len() - from,
    when 0 <= from
    via has_status_line_decreases
{
    if from >= s.len() {
        false
    } else {
        match line_kind(line_at(s, from)) {
            LineKind::Bad(_) => false,
            LineKind::End => false,
            LineKind::Status(_) => true,
            _ => has_status_line(s, after_line(s, from)),
        }
    }
}

#[via_fn]
proof fn has_status_line_decreases(s: Seq<u8>, from: int) {
    if from < s.len() {
        lemma_first_at_bounds(s, 10, from);
    }
}

/// Whether reading from the line at `from` arrives at the line at `at`
/// before the header block ends or fails.
pub open spec fn reaches(s: Seq<u8>, from: int, at: int) -> bool
    decreases s.len() - from,
    when 0 <= from
    via reaches_decreases
{
    if from >= s.len() {
        false
    } else if from == at {
        true
    } else {
        match line_kind(line_at(s, from)) {
            LineKind::Bad(_) => false,
            LineKind::End => false,
            _ => reaches(s, after_line(s, from), at),
        }
    }
}

#[via_fn]
proof fn reaches_decreases(s: Seq<u8>, from: int, at: int) {
    if from < s.len() {
        lemma_first_at_bounds(s, 10, from);
    }
}

/// No field in `headers` bears the name of the status header.
pub open spec fn free_of_status(headers: Seq<(Seq<u8>, Seq<u8>)>) -> bool {
    forall|i: int| 0 <= i < headers.len() ==> (#[trigger] headers[i]).0 != status_name()
}

/// Every field in `headers` is legal as an HTTP header.
pub open spec fn all_legal(headers: Seq<(Seq<u8>, Seq<u8>)>) -> bool {
    forall|i: int|
        0 <= i < headers.len() ==> legal_header_name((#[trigger] headers[i]).0) && legal_header_value(
            headers[i].1,
        )
}

/// Without a `Status` line from `from` on, a successful reading keeps the
/// status it had.
pub proof fn lemma_status_kept(s: Seq<u8>, from: int, status: u16, headers: Seq<(Seq<u8>, Seq<u8>)>)
    requires
        0 <= from,
        !has_status_line(s, from),
    ensures
        parse_from(s, from, status, headers) is Ok ==> parse_from(s, from, status, headers)->Ok_0.status
            == status,
    decreases s.len() - from,
{
    if from < s.len() {
        lemma_first_at_bounds(s, 10, from);
        let next = after_line(s, from);
        match line_kind(line_at(s, from)) {
            LineKind::Skip => lemma_status_kept(s, next, status, headers),
            LineKind::Field(n, v) => lemma_status_kept(s, next, status, headers.push((n, v))),
            _ => {},
        }
    }
}

/// An output without a `Status` line in its header block, if it can be read
/// at all, has status 200.
pub proof fn law_status_defaults(s: Seq<u8>)
    requires
        !has_status_line(s, 0),
    ensures
        parse(s) is Ok ==> parse(s)->Ok_0.status == 200,
{
    lemma_status_kept(s, 0, 200, Seq::empty());
}

/// A `Status` line of the header block that no other `Status` line follows
/// decides the status of a successful reading.
pub proof fn lemma_last_status_decides(
    s: Seq<u8>,
    from: int,
    at: int,
    n: u16,
    status: u16,
    headers: Seq<(Seq<u8>, Seq<u8>)>,
)
    requires
        0 <= from,
        reaches(s, from, at),
        line_kind(line_at(s, at)) == LineKind::Status(n),
        !has_status_line(s, after_line(s, at)),
    ensures
        parse_from(s, from, status, headers) is Ok ==> parse_from(s, from, status, headers)->Ok_0.status
            == n,
    decreases s.len() - from,
{
    lemma_first_at_bounds(s, 10, from);
    let next = after_line(s, from);
    if from == at {
        lemma_status_kept(s, next, n, headers);
    } else {
        match line_kind(line_at(s, from)) {
            LineKind::Skip => lemma_last_status_decides(s, next, at, n, status, headers),
            LineKind::Status(m) => lemma_last_status_decides(s, next, at, n, m, headers),
            LineKind::Field(a, b) => lemma_last_status_decides(s, next, at, n, status, headers.push((a, b))),
            _ => {},
        }
    }
}

/// A successful reading never lists the status among the headers, and lists
/// only legal headers, given that this held of the headers gathered before.
pub proof fn lemma_headers_stay_clean(s: Seq<u8>, from: int, status: u16, headers: Seq<(Seq<u8>, Seq<u8>)>)
    requires
        0 <= from <= s.len(),
        free_of_status(headers),
        all_legal(headers),
    ensures
        parse_from(s, from, status, headers) is Ok ==> {
            let p = parse_from(s, from, status, headers)->Ok_0;
            free_of_status(p.headers) && all_legal(p.headers) && legal_status(p.status) && from
                <= p.body_start <= s.len()
        },
    decreases s.len() - from,
{
    if from < s.len() {
        lemma_first_at_bounds(s, 10, from);
        let next = after_line(s, from);
        match line_kind(line_at(s, from)) {
            LineKind::Skip => lemma_headers_stay_clean(s, next, status, headers),
            LineKind::Status(m) => lemma_headers_stay_clean(s, next, m, headers),
            LineKind::Field(a, b) => {
                let more = headers.push((a, b));
                assert forall|i: int| 0 <= i < more.len() implies (#[trigger] more[i]).0 != status_name()
                    && legal_header_name(more[i].0) && legal_header_value(more[i].1) by {
                    if i < headers.len() {
                        assert(more[i] == headers[i]);
                    }
                }
                lemma_headers_stay_clean(s, next, status, more);
            },
            _ => {},
        }
    }
}

/// The line `Status: 404 Not Found` is a status line that gives 404.
pub proof fn lemma_not_found_line()
    ensures
        line_kind(ascii("Status: 404 Not Found"@)) == LineKind::Status(404),
{
    reveal_strlit("Status: 404 Not Found");
    reveal_strlit("Status");
    reveal_strlit("getEnvs ");
    let line = ascii("Status: 404 Not Found"@);
    lemma_ascii_is_utf8("Status: 404 Not Found"@);
    reveal_with_fuel(first_at, 8);
    assert(first_at(line, 58, 0) == 6);
    assert(line.subrange(0, 6) =~= status_name());
    assert(line.subrange(0, 8)[0] != debug_prefix()[0]);
}

/// An output whose header block holds the line `Status: 404 Not Found`,
/// with no `Status` line after it, has status 404 if it can be read at all,
/// and no header of the response is named `Status`.
pub proof fn law_status_line_decides(s: Seq<u8>, at: int)
    requires
        reaches(s, 0, at),
        line_at(s, at) == ascii("Status: 404 Not Found"@),
        !has_status_line(s, after_line(s, at)),
    ensures
        parse(s) is Ok ==> parse(s)->Ok_0.status == 404 && free_of_status(parse(s)->Ok_0.headers),
{
    lemma_not_found_line();
    lemma_last_status_decides(s, 0, at, 404, 200, Seq::empty());
    lemma_headers_stay_clean(s, 0, 200, Seq::empty());
}

/// A line that is text, is not empty, is no diagnostic line and holds no
/// colon is a failure of the header format.
pub proof fn law_line_without_colon(line: Seq<u8>)
    requires
        valid_utf8(line),
        line.len() > 0,
        !(debug_prefix().len() <= line.len() && line.subrange(0, debug_prefix().len() as int)
            == debug_prefix()),
        forall|i: int| 0 <= i < line.len() ==> line[i] != 58,
    ensures
        line_kind(line) == LineKind::Bad(CgiError::HeaderFormat),
{
    lemma_first_at_bounds(line, 58, 0);
}

/// A failing line that the reading arrives at fails the whole output, with
/// that line's error: no response comes out of it.
pub proof fn law_bad_line_fails(s: Seq<u8>, from: int, at: int, e: CgiError, status: u16, headers: Seq<(Seq<u8>, Seq<u8>)>)
    requires
        0 <= from,
        reaches(s, from, at),
        line_kind(line_at(s, at)) == LineKind::Bad(e),
    ensures
        parse_from(s, from, status, headers) == Err::<Parsed, CgiError>(e),
    decreases s.len() - from,
{
    lemma_first_at_bounds(s, 10, from);
    let next = after_line(s, from);
    if from != at {
        match line_kind(line_at(s, from)) {
            LineKind::Skip => law_bad_line_fails(s, next, at, e, status, headers),
            LineKind::Status(m) => law_bad_line_fails(s, next, at, e, m, headers),
            LineKind::Field(a, b) => law_bad_line_fails(s, next, at, e, status, headers.push((a, b))),
            _ => {},
        }
    }
}

} // verus!
