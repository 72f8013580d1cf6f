//! Octet-string helpers shared by the gateway's components.

use vstd::prelude::*;
use vstd::string::*;
use vstd::utf8::*;

verus! {

/// The octets of an ASCII character sequence, one octet per character.
pub open spec fn ascii(s: Seq<char>) -> Seq<u8> {
    Seq::new(s.len(), |i: int| s[i] as u8)
}

/// The octets of an ASCII string literal.
pub fn lit(s: &str) -> (r: Vec<u8>)
    requires
        s.is_ascii(),
    ensures
        r@ == ascii(s@),
{
    broadcast use is_ascii_spec_bytes;

    let r = s.as_bytes_vec();
    assert(r@ =~= ascii(s@));
    r
}

/// ASCII lower-casing of one octet.
pub open spec fn lower(b: u8) -> u8 {
    if 65 <= b && b <= 90 {
        (b + 32) as u8
    } else {
        b
    }
}

/// Two octet strings are equal up to the case of ASCII letters.
pub open spec fn same_ignoring_case(a: Seq<u8>, b: Seq<u8>) -> bool {
    a.len() == b.len() && forall|i: int| 0 <= i < a.len() ==> lower(#[trigger] a[i]) == lower(b[i])
}

/// ASCII white space, as `trim` removes it from either end of ASCII text.
pub open spec fn is_space(b: u8) -> bool {
    b == 32 || (9 <= b && b <= 13)
}

/// The index of the first octet equal to `b` at or after `from`, or the
/// length of `s` when there is none.
pub open spec fn first_at(s: Seq<u8>, b: u8, from: int) -> int
    decreases s.len() - from,
{
    if from >= s.len() {
        s.len() as int
    } else if s[from] == b {
        from
    } else {
        first_at(s, b, from + 1)
    }
}

/// The index of the first octet that is not white space, or the length.
pub open spec fn skip_spaces(s: Seq<u8>, from: int) -> int
    decreases s.len() - from,
{
    if from >= s.len() {
        s.len() as int
    } else if !is_space(s[from]) {
        from
    } else {
        skip_spaces(s, from + 1)
    }
}

/// The end of `s` once trailing white space is dropped, never below `low`.
pub open spec fn drop_spaces(s: Seq<u8>, low: int, end: int) -> int
    decreases end - low,
{
    if end <= low {
        low
    } else if !is_space(s[end - 1]) {
        end
    } else {
        drop_spaces(s, low, end - 1)
    }
}

/// `s` without leading and trailing white space.
pub open spec fn trimmed(s: Seq<u8>) -> Seq<u8> {
    let a = skip_spaces(s, 0);
    s.subrange(a, drop_spaces(s, a, s.len() as int))
}

/// The decimal digits of `n`, most significant first, without leading zeros.
pub open spec fn decimal(n: nat) -> Seq<u8>
    decreases n,
{
    if n < 10 {
        seq![(48 + n) as u8]
    } else {
        decimal(n / 10).push((48 + n % 10) as u8)
    }
}

/// `first_at` lies between `from` and the length, names an octet equal to `b`
/// where it is below the length, and passes over none.
pub proof fn lemma_first_at_bounds(s: Seq<u8>, b: u8, from: int)
    requires
        0 <= from <= s.len(),
    ensures
        from <= first_at(s, b, from) <= s.len(),
        first_at(s, b, from) < s.len() ==> s[first_at(s, b, from)] == b,
        forall|k: int| from <= k < first_at(s, b, from) ==> s[k] != b,
    decreases s.len() - from,
{
    if from < s.len() && s[from] != b {
        lemma_first_at_bounds(s, b, from + 1);
    }
}

pub fn to_lower(b: u8) -> (r: u8)
    ensures
        r == lower(b),
{
    if 65 <= b && b <= 90 {
        b + 32
    } else {
        b
    }
}

pub fn bytes_equal(a: &[u8], b: &[u8]) -> (r: bool)
    ensures
        r == (a@ == b@),
{
    if a.len() != b.len() {
        return false;
    }
    let mut i: usize = 0;
    while i < a.len()
        invariant
            a@.len() == b@.len(),
            i <= a@.len(),
            forall|k: int| 0 <= k < i ==> a@[k] == b@[k],
        decreases a@.len() - i,
    {
        if a[i] != b[i] {
            return false;
        }
        i += 1;
    }
    assert(a@ =~= b@);
    true
}

pub fn equal_ignoring_case(a: &[u8], b: &[u8]) -> (r: bool)
    ensures
        r == same_ignoring_case(a@, b@),
{
    if a.len() != b.len() {
        return false;
    }
    let mut i: usize = 0;
    while i < a.len()
        invariant
            a@.len() == b@.len(),
            i <= a@.len(),
            forall|k: int| 0 <= k < i ==> lower(#[trigger] a@[k]) == lower(b@[k]),
        decreases a@.len() - i,
    {
        if to_lower(a[i]) != to_lower(b[i]) {
            return false;
        }
        i += 1;
    }
    true
}

/// Whether `s` begins with `prefix`.
pub fn has_prefix(s: &[u8], prefix: &[u8]) -> (r: bool)
    ensures
        r == (prefix@.len() <= s@.len() && s@.subrange(0, prefix@.len() as int) == prefix@),
{
    if prefix.len() > s.len() {
        return false;
    }
    bytes_equal(&s[0..prefix.len()], prefix)
}

/// The index of the first `b` at or after `from`, or the length of `s`.
pub fn find_from(s: &[u8], b: u8, from: usize) -> (r: usize)
    requires
        from <= s@.len(),
    ensures
        r == first_at(s@, b, from as int),
        from <= r <= s@.len(),
{
    let mut i: usize = from;
    while i < s.len() && s[i] != b
        invariant
            from <= i <= s@.len(),
            first_at(s@, b, from as int) == first_at(s@, b, i as int),
        decreases s@.len() - i,
    {
        i += 1;
    }
    i
}

/// A copy of `s[from..to]`.
pub fn copy_range(s: &[u8], from: usize, to: usize) -> (r: Vec<u8>)
    requires
        from <= to <= s@.len(),
    ensures
        r@ == s@.subrange(from as int, to as int),
{
    let mut out: Vec<u8> = Vec::new();
    let mut i: usize = from;
    while i < to
        invariant
            from <= i <= to <= s@.len(),
            out@ == s@.subrange(from as int, i as int),
        decreases to - i,
    {
        out.push(s[i]);
        assert(out@ =~= s@.subrange(from as int, i + 1));
        i += 1;
    }
    out
}

/// Appends `tail` to `out`.
pub fn append(out: &mut Vec<u8>, tail: &[u8])
    ensures
        final(out)@ == old(out)@ + tail@,
{
    let mut i: usize = 0;
    while i < tail.len()
        invariant
            i <= tail@.len(),
            out@ == old(out)@ + tail@.subrange(0, i as int),
        decreases tail@.len() - i,
    {
        out.push(tail[i]);
        assert(out@ =~= old(out)@ + tail@.subrange(0, i + 1));
        i += 1;
    }
    assert(tail@.subrange(0, tail@.len() as int) =~= tail@);
}

/// The bounds of `s` without its leading and trailing white space.
pub fn trim_bounds(s: &[u8]) -> (r: (usize, usize))
    ensures
        r.0 <= r.1 <= s@.len(),
        r.0 == skip_spaces(s@, 0),
        r.1 == drop_spaces(s@, r.0 as int, s@.len() as int),
        s@.subrange(r.0 as int, r.1 as int) == trimmed(s@),
{
    let mut a: usize = 0;
    while a < s.len() && is_space_octet(s[a])
        invariant
            a <= s@.len(),
            skip_spaces(s@, 0) == skip_spaces(s@, a as int),
        decreases s@.len() - a,
    {
        a += 1;
    }
    let mut e: usize = s.len();
    while e > a && is_space_octet(s[e - 1])
        invariant
            a <= e <= s@.len(),
            drop_spaces(s@, a as int, s@.len() as int) == drop_spaces(s@, a as int, e as int),
        decreases e - a,
    {
        e -= 1;
    }
    (a, e)
}

pub fn is_space_octet(b: u8) -> (r: bool)
    ensures
        r == is_space(b),
{
    b == 32 || (9 <= b && b <= 13)
}

/// The decimal text of `n`.
pub fn decimal_text(n: u64) -> (r: Vec<u8>)
    ensures
        r@ == decimal(n as nat),
    decreases n,
{
    if n < 10 {
        let d: u8 = 48 + (n as u8);
        let r = vec![d];
        assert(r@ =~= decimal(n as nat));
        r
    } else {
        let mut r = decimal_text(n / 10);
        let d: u8 = 48 + ((n % 10) as u8);
        r.push(d);
        r
    }
}

/// `first_at` is `at` where `b` stands at `at` and nowhere from `from` up to it;
/// `at` may be the length.
pub proof fn lemma_first_at_is(s: Seq<u8>, b: u8, from: int, at: int)
    requires
        0 <= from <= at <= s.len(),
        forall|k: int| from <= k < at ==> s[k] != b,
        at < s.len() ==> s[at] == b,
    ensures
        first_at(s, b, from) == at,
    decreases at - from,
{
    if from < at {
        lemma_first_at_is(s, b, from + 1, at);
    }
}

/// The octets of ASCII characters are well-formed UTF-8.
pub proof fn lemma_ascii_is_utf8(c: Seq<char>)
    requires
        is_ascii_chars(c),
    ensures
        valid_utf8(ascii(c)),
{
    is_ascii_chars_encode_utf8(c);
    encode_utf8_valid_utf8(c);
    assert(ascii(c) =~= encode_utf8(c));
}

} // verus!
