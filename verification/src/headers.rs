//! Header lines: their two parts, names compared without regard to case,
//! and the headers that are meant for the proxy alone.

use crate::request::copy_range;
use crate::request::find_byte;
use crate::request::first_at;
use crate::request::ProtocolError;
use crate::request::COLON;
use vstd::prelude::*;

verus! {

/// The header name `proxy-connection`.
pub open spec fn proxy_connection() -> Seq<u8> {
    seq![
        0x70u8, 0x72u8, 0x6fu8, 0x78u8, 0x79u8, 0x2du8, 0x63u8, 0x6fu8, 0x6eu8, 0x6eu8, 0x65u8,
        0x63u8, 0x74u8, 0x69u8, 0x6fu8, 0x6eu8,
    ]
}

/// The header name `proxy-authorization`.
pub open spec fn proxy_authorization() -> Seq<u8> {
    seq![
        0x70u8, 0x72u8, 0x6fu8, 0x78u8, 0x79u8, 0x2du8, 0x61u8, 0x75u8, 0x74u8, 0x68u8, 0x6fu8,
        0x72u8, 0x69u8, 0x7au8, 0x61u8, 0x74u8, 0x69u8, 0x6fu8, 0x6eu8,
    ]
}

/// Space or horizontal tab.
pub open spec fn is_blank(b: u8) -> bool {
    b == 0x20 || b == 0x09
}

/// A visible ASCII character other than the colon.
pub open spec fn is_name_byte(b: u8) -> bool {
    0x21 <= b <= 0x7e && b != COLON
}

/// An upper-case ASCII letter as its lower-case one; any other byte as it
/// is.
pub open spec fn lower(b: u8) -> u8 {
    if 0x41 <= b <= 0x5a {
        (b + 0x20) as u8
    } else {
        b
    }
}

/// Two names are the same but for the case of their letters.
pub open spec fn same_name(a: Seq<u8>, b: Seq<u8>) -> bool {
    &&& a.len() == b.len()
    &&& forall|i: int| 0 <= i < a.len() ==> lower(#[trigger] a[i]) == lower(b[i])
}

/// A header that speaks to the proxy and is not passed on.
pub open spec fn is_proxy_name(name: Seq<u8>) -> bool {
    same_name(name, proxy_connection()) || same_name(name, proxy_authorization())
}

/// Position of the first byte at or after `from` that is not blank; the
/// length of `s` where there is none.
pub open spec fn skip_blanks(s: Seq<u8>, from: int) -> int
    decreases s.len() - from,
{
    if from < 0 || from >= s.len() {
        s.len() as int
    } else if !is_blank(s[from]) {
        from
    } else {
        skip_blanks(s, from + 1)
    }
}

/// Where `s` ends between `from` and `to` once its trailing blanks are
/// left off.
pub open spec fn drop_trailing(s: Seq<u8>, from: int, to: int) -> int
    decreases to,
{
    if to <= from || to > s.len() || to <= 0 {
        from
    } else if !is_blank(s[to - 1]) {
        to
    } else {
        drop_trailing(s, from, to - 1)
    }
}

/// Name and value of `name ":" value`: the name is not empty and made of
/// name bytes, the value is what follows the colon without the blanks
/// around it.
pub open spec fn header_of(line: Seq<u8>) -> Option<HeaderModel> {
    let c = first_at(line, COLON, 0);
    if c == 0 || c >= line.len() || !(forall|i: int| 0 <= i < c ==> is_name_byte(#[trigger] line[i])) {
        None
    } else {
        let start = skip_blanks(line, c + 1);
        let end = drop_trailing(line, start, line.len() as int);
        Some(HeaderModel { name: line.subrange(0, c), value: line.subrange(start, end) })
    }
}

/// What a header stands for.
pub struct HeaderModel {
    pub name: Seq<u8>,
    pub value: Seq<u8>,
}

/// One header of a request, as the client wrote it.
#[derive(Clone, Debug, PartialEq, Eq)]
pub struct Header {
    pub name: Vec<u8>,
    pub value: Vec<u8>,
}

impl View for Header {
    type V = HeaderModel;

    open spec fn view(&self) -> HeaderModel {
        HeaderModel { name: self.name@, value: self.value@ }
    }
}

/// What each header of a list stands for, in order.
pub open spec fn models(headers: Seq<Header>) -> Seq<HeaderModel> {
    Seq::new(headers.len(), |i: int| headers[i]@)
}

/// The headers that are passed on: all but those for the proxy, in their
/// order.
pub open spec fn forwarded(headers: Seq<HeaderModel>) -> Seq<HeaderModel>
    decreases headers.len(),
{
    if headers.len() == 0 {
        Seq::empty()
    } else if is_proxy_name(headers.last().name) {
        forwarded(headers.drop_last())
    } else {
        forwarded(headers.drop_last()).push(headers.last())
    }
}

/// Position of the first header with the given name, whatever the case of
/// its letters; the length of the list where there is none.
pub open spec fn first_named(headers: Seq<HeaderModel>, name: Seq<u8>, from: int) -> int
    decreases headers.len() - from,
{
    if from < 0 || from >= headers.len() {
        headers.len() as int
    } else if same_name(headers[from].name, name) {
        from
    } else {
        first_named(headers, name, from + 1)
    }
}

fn lower_byte(b: u8) -> (r: u8)
    ensures
        r == lower(b),
{
    if 0x41 <= b && b <= 0x5a {
        b + 0x20
    } else {
        b
    }
}

/// Whether two names are the same but for the case of their letters.
pub fn names_match(a: &[u8], b: &[u8]) -> (r: bool)
    ensures
        r == same_name(a@, b@),
{
    if a.len() != b.len() {
        return false;
    }
    let mut i: usize = 0;
    while i < a.len()
        invariant
            a@.len() == b@.len(),
            i <= a@.len(),
            forall|k: int| 0 <= k < i ==> lower(#[trigger] a@[k]) == lower(b@[k]),
        decreases a@.len() - i,
    {
        if lower_byte(a[i]) != lower_byte(b[i]) {
            return false;
        }
        i += 1;
    }
    true
}

/// Whether a header of this name speaks to the proxy and is not passed on:
/// `Proxy-Connection` or `Proxy-Authorization`.
pub fn is_proxy_header(name: &[u8]) -> (r: bool)
    ensures
        r == is_proxy_name(name@),
{
    let connection: [u8; 16] = [
        0x70, 0x72, 0x6f, 0x78, 0x79, 0x2d, 0x63, 0x6f, 0x6e, 0x6e, 0x65, 0x63, 0x74, 0x69, 0x6f,
        0x6e,
    ];
    let authorization: [u8; 19] = [
        0x70, 0x72, 0x6f, 0x78, 0x79, 0x2d, 0x61, 0x75, 0x74, 0x68, 0x6f, 0x72, 0x69, 0x7a, 0x61,
        0x74, 0x69, 0x6f, 0x6e,
    ];
    proof {
        assert(connection@ =~= proxy_connection());
        assert(authorization@ =~= proxy_authorization());
    }
    names_match(name, connection.as_slice()) || names_match(name, authorization.as_slice())
}

/// Splits a header line, given without its line end, into name and value.
pub fn parse_header_line(line: &[u8]) -> (r: Result<Header, ProtocolError>)
    ensures
        match header_of(line@) {
            Some(h) => r.is_ok() && r.unwrap()@ == h,
            None => r == Err::<Header, ProtocolError>(ProtocolError::MalformedHeader),
        },
{
    let n = line.len();
    let c = find_byte(line, COLON, 0);
    if c == 0 || c >= n {
        return Err(ProtocolError::MalformedHeader);
    }
    let mut i: usize = 0;
    while i < c
        invariant
            i <= c < n,
            n == line@.len(),
            c == first_at(line@, COLON, 0),
            forall|k: int| 0 <= k < i ==> is_name_byte(#[trigger] line@[k]),
        decreases c - i,
    {
        let b = line[i];
        if !(0x21 <= b && b <= 0x7e && b != COLON) {
            proof {
                assert(!is_name_byte(line@[i as int]));
            }
            return Err(ProtocolError::MalformedHeader);
        }
        i += 1;
    }
    let mut start: usize = c + 1;
    while start < n && (line[start] == 0x20 || line[start] == 0x09)
        invariant
            c + 1 <= start <= n,
            n == line@.len(),
            skip_blanks(line@, c + 1) == skip_blanks(line@, start as int),
        decreases n - start,
    {
        start += 1;
    }
    let mut end: usize = n;
    while end > start && (line[end - 1] == 0x20 || line[end - 1] == 0x09)
        invariant
            start <= end <= n,
            n == line@.len(),
            drop_trailing(line@, start as int, n as int) == drop_trailing(
                line@,
                start as int,
                end as int,
            ),
        decreases end,
    {
        end -= 1;
    }
    Ok(Header { name: copy_range(line, 0, c), value: copy_range(line, start, end) })
}

fn copy_header(h: &Header) -> (r: Header)
    ensures
        r@ == h@,
{
    let name = copy_range(h.name.as_slice(), 0, h.name.len());
    let value = copy_range(h.value.as_slice(), 0, h.value.len());
    proof {
        assert(name@ =~= h.name@);
        assert(value@ =~= h.value@);
    }
    Header { name, value }
}

/// The headers to pass on to the target: all but `Proxy-Connection` and
/// `Proxy-Authorization`, in the order in which they came.
pub fn strip_proxy_headers(headers: &Vec<Header>) -> (r: Vec<Header>)
    ensures
        models(r@) == forwarded(models(headers@)),
{
    let mut out: Vec<Header> = Vec::new();
    let mut i: usize = 0;
    proof {
        assert(models(headers@.subrange(0, 0)) =~= Seq::<HeaderModel>::empty());
        assert(models(out@) =~= Seq::<HeaderModel>::empty());
    }
    while i < headers.len()
        invariant
            i <= headers@.len(),
            models(out@) == forwarded(models(headers@.subrange(0, i as int))),
        decreases headers@.len() - i,
    {
        let ghost before = models(headers@.subrange(0, i as int));
        let ghost after = models(headers@.subrange(0, i + 1));
        proof {
            assert(after.drop_last() =~= before);
            assert(after.last() == headers@[i as int]@);
        }
        if !is_proxy_header(headers[i].name.as_slice()) {
            let ghost kept = models(out@);
            let copy = copy_header(&headers[i]);
            out.push(copy);
            proof {
                assert(models(out@) =~= kept.push(headers@[i as int]@));
            }
        }
        i += 1;
    }
    proof {
        assert(headers@.subrange(0, headers@.len() as int) =~= headers@);
    }
    out
}

/// Position of the first header with the given name, whatever the case of
/// its letters.
pub fn find_header(headers: &Vec<Header>, name: &[u8]) -> (r: Option<usize>)
    ensures
        match r {
            Some(i) => i < headers@.len() && i == first_named(models(headers@), name@, 0),
            None => first_named(models(headers@), name@, 0) == headers@.len(),
        },
{
    let mut i: usize = 0;
    while i < headers.len()
        invariant
            i <= headers@.len(),
            first_named(models(headers@), name@, 0) == first_named(
                models(headers@),
                name@,
                i as int,
            ),
        decreases headers@.len() - i,
    {
        if names_match(headers[i].name.as_slice(), name) {
            return Some(i);
        }
        i += 1;
    }
    None
}

/// Nothing that is passed on is a header for the proxy, and nothing is
/// passed on that did not come.
pub proof fn lemma_forwarded_has_no_proxy_header(headers: Seq<HeaderModel>)
    ensures
        forall|i: int|
            0 <= i < forwarded(headers).len() ==> !is_proxy_name(
                (#[trigger] forwarded(headers)[i]).name,
            ) && headers.contains(forwarded(headers)[i]),
        forwarded(headers).len() <= headers.len(),
    decreases headers.len(),
{
    if headers.len() > 0 {
        let rest = headers.drop_last();
        lemma_forwarded_has_no_proxy_header(rest);
        assert forall|i: int| 0 <= i < forwarded(headers).len() implies !is_proxy_name(
            (#[trigger] forwarded(headers)[i]).name,
        ) && headers.contains(forwarded(headers)[i]) by {
            if i < forwarded(rest).len() {
                let h = forwarded(rest)[i];
                assert(rest.contains(h));
                let k = choose|k: int| 0 <= k < rest.len() && rest[k] == h;
                assert(headers[k] == h);
            } else {
                assert(forwarded(headers)[i] == headers.last());
                assert(headers[headers.len() - 1] == headers.last());
            }
        }
    }
}

/// Stripping what was stripped changes nothing.
pub proof fn lemma_forwarded_twice(headers: Seq<HeaderModel>)
    ensures
        forwarded(forwarded(headers)) == forwarded(headers),
    decreases headers.len(),
{
    if headers.len() > 0 {
        let rest = headers.drop_last();
        lemma_forwarded_twice(rest);
        if !is_proxy_name(headers.last().name) {
            let f = forwarded(rest).push(headers.last());
            assert(f.drop_last() =~= forwarded(rest));
            assert(f.last() == headers.last());
        }
    }
}

} // verus!
