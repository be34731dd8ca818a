//! The head of a request: its lines up to the empty one, the request that
//! they spell, and the head that is sent on for a plain request.

use crate::headers::forwarded;
use crate::headers::header_of;
use crate::headers::models;
use crate::headers::parse_header_line;
use crate::headers::strip_proxy_headers;
use crate::headers::Header;
use crate::headers::HeaderModel;
use crate::request::append_range;
use crate::request::connect_method;
use crate::request::copy_range;
use crate::request::forward_line_of;
use crate::request::forward_request_line;
use crate::request::is_connect;
use crate::request::parse_request_line;
use crate::request::request_line_of;
use crate::request::ProtocolError;
use crate::request::RequestLine;
use crate::request::COLON;
use crate::request::SPACE;
use vstd::prelude::*;

verus! {

pub const CR: u8 = 0x0d;

pub const LF: u8 = 0x0a;

/// Position of the first CR LF that starts at or after `from`; the length
/// of `s` where there is none.
pub open spec fn line_end(s: Seq<u8>, from: int) -> int
    decreases s.len() - from,
{
    if from < 0 || from + 1 >= s.len() {
        s.len() as int
    } else if s[from] == CR && s[from + 1] == LF {
        from
    } else {
        line_end(s, from + 1)
    }
}

/// The lines of a head from `from` on, each without its CR LF, up to the
/// first empty line, and the position behind that empty line. There is no
/// such reading where the empty line is missing.
pub open spec fn head_lines(s: Seq<u8>, from: int) -> Option<(Seq<Seq<u8>>, int)>
    decreases s.len() - from,
{
    let e = line_end(s, from);
    if from < 0 || e < from || e + 1 >= s.len() {
        None
    } else if e == from {
        Some((Seq::empty(), from + 2))
    } else {
        match head_lines(s, e + 2) {
            Some(rest) => Some((seq![s.subrange(from, e)] + rest.0, rest.1)),
            None => None,
        }
    }
}

/// The headers that a list of lines spells, if each line is a header.
pub open spec fn headers_of(lines: Seq<Seq<u8>>) -> Option<Seq<HeaderModel>>
    decreases lines.len(),
{
    if lines.len() == 0 {
        Some(Seq::empty())
    } else {
        match (headers_of(lines.drop_last()), header_of(lines.last())) {
            (Some(hs), Some(h)) => Some(hs.push(h)),
            _ => None,
        }
    }
}

/// What a request stands for.
pub struct ProxyRequestModel {
    pub method: Seq<u8>,
    pub target: Seq<u8>,
    pub version: Seq<u8>,
    pub headers: Seq<HeaderModel>,
}

/// The request that a head spells: its first line is the request line,
/// every other line up to the empty one is a header.
pub open spec fn proxy_request_of(head: Seq<u8>) -> Result<ProxyRequestModel, ProtocolError> {
    match head_lines(head, 0) {
        None => Err(ProtocolError::IncompleteHead),
        Some(found) => if found.0.len() == 0 {
            Err(ProtocolError::MalformedRequestLine)
        } else {
            match request_line_of(found.0[0]) {
                None => Err(ProtocolError::MalformedRequestLine),
                Some(parts) => match headers_of(found.0.subrange(1, found.0.len() as int)) {
                    None => Err(ProtocolError::MalformedHeader),
                    Some(hs) => Ok(
                        ProxyRequestModel {
                            method: parts.0,
                            target: parts.1,
                            version: parts.2,
                            headers: hs,
                        },
                    ),
                },
            }
        },
    }
}

/// Whether the head starts with a well-formed request line whose method is
/// `CONNECT`, whatever follows that line.
pub open spec fn asks_for_tunnel_of(head: Seq<u8>) -> bool {
    match head_lines(head, 0) {
        Some(found) => found.0.len() > 0 && (match request_line_of(found.0[0]) {
            Some(parts) => parts.0 == connect_method(),
            None => false,
        }),
        None => false,
    }
}

/// One header as a line on the wire.
pub open spec fn header_text(h: HeaderModel) -> Seq<u8> {
    h.name + seq![COLON, SPACE] + h.value + seq![CR, LF]
}

/// A list of headers as lines on the wire.
pub open spec fn headers_text(hs: Seq<HeaderModel>) -> Seq<u8>
    decreases hs.len(),
{
    if hs.len() == 0 {
        Seq::empty()
    } else {
        headers_text(hs.drop_last()) + header_text(hs.last())
    }
}

/// The head that is sent on to the target of a plain request: the request
/// line in origin form, the headers that are not for the proxy, and the
/// empty line.
pub open spec fn forward_head_of(r: ProxyRequestModel) -> Seq<u8> {
    forward_line_of(r.method, r.target, r.version) + seq![CR, LF] + headers_text(
        forwarded(r.headers),
    ) + seq![CR, LF]
}

/// What each line of a list holds, in order.
pub open spec fn line_views(lines: Seq<Vec<u8>>) -> Seq<Seq<u8>> {
    Seq::new(lines.len(), |i: int| lines[i]@)
}

/// The parsed first lines of a client's request.
#[derive(Clone, Debug, PartialEq, Eq)]
pub struct ProxyRequest {
    pub line: RequestLine,
    pub headers: Vec<Header>,
}

impl View for ProxyRequest {
    type V = ProxyRequestModel;

    open spec fn view(&self) -> ProxyRequestModel {
        ProxyRequestModel {
            method: self.line.method@,
            target: self.line.target@,
            version: self.line.version@,
            headers: models(self.headers@),
        }
    }
}

/// Position of the first CR LF that starts at or after `from`.
pub fn find_line_end(s: &[u8], from: usize) -> (r: usize)
    ensures
        r == line_end(s@, from as int),
        r <= s@.len(),
        from <= s@.len() ==> from <= r,
        r < s@.len() ==> r + 1 < s@.len(),
{
    let n = s.len();
    let mut i: usize = from;
    while i < n && n - i >= 2
        invariant
            n == s@.len(),
            from <= i,
            line_end(s@, from as int) == line_end(s@, i as int),
        decreases n - i,
    {
        if s[i] == CR && s[i + 1] == LF {
            return i;
        }
        i += 1;
    }
    n
}

/// The lines of a head up to the first empty line, and the position behind
/// that empty line; nothing while the empty line has not arrived.
pub fn split_head(s: &[u8]) -> (r: Option<(Vec<Vec<u8>>, usize)>)
    ensures
        match r {
            Some(found) => head_lines(s@, 0) == Some((line_views(found.0@), found.1 as int))
                && found.1 <= s@.len(),
            None => head_lines(s@, 0) is None,
        },
{
    let n = s.len();
    let mut lines: Vec<Vec<u8>> = Vec::new();
    let mut pos: usize = 0;
    proof {
        assert(line_views(lines@) =~= Seq::<Seq<u8>>::empty());
        match head_lines(s@, 0) {
            Some(rest) => {
                assert(line_views(lines@) + rest.0 =~= rest.0);
            },
            None => {},
        }
    }
    loop
        invariant
            n == s@.len(),
            pos <= n,
            head_lines(s@, 0) == (match head_lines(s@, pos as int) {
                Some(rest) => Some((line_views(lines@) + rest.0, rest.1)),
                None => None,
            }),
        decreases n - pos,
    {
        let e = find_line_end(s, pos);
        if e >= n {
            return None;
        }
        if e == pos {
            proof {
                assert(line_views(lines@) + Seq::<Seq<u8>>::empty() =~= line_views(lines@));
            }
            return Some((lines, pos + 2));
        }
        let ghost before = line_views(lines@);
        let line = copy_range(s, pos, e);
        lines.push(line);
        proof {
            assert(line_views(lines@) =~= before.push(s@.subrange(pos as int, e as int)));
            match head_lines(s@, e + 2) {
                Some(rest) => {
                    assert(before + (seq![s@.subrange(pos as int, e as int)] + rest.0)
                        =~= line_views(lines@) + rest.0);
                },
                None => {},
            }
        }
        pos = e + 2;
    }
}

/// A list of lines with a line in it that is no header spells no headers.
pub proof fn lemma_bad_header(lines: Seq<Seq<u8>>, k: int)
    requires
        0 <= k < lines.len(),
        header_of(lines[k]) is None,
    ensures
        headers_of(lines) is None,
    decreases lines.len(),
{
    if k < lines.len() - 1 {
        lemma_bad_header(lines.drop_last(), k);
    }
}

/// Reads the head of a request: the request line, then the headers.
pub fn parse_head(head: &[u8]) -> (r: Result<ProxyRequest, ProtocolError>)
    ensures
        match proxy_request_of(head@) {
            Ok(m) => r.is_ok() && r.unwrap()@ == m,
            Err(e) => r == Err::<ProxyRequest, ProtocolError>(e),
        },
{
    let lines = match split_head(head) {
        Some(found) => found.0,
        None => {
            return Err(ProtocolError::IncompleteHead);
        },
    };
    if lines.len() == 0 {
        return Err(ProtocolError::MalformedRequestLine);
    }
    let ghost all = line_views(lines@);
    let ghost tail = all.subrange(1, all.len() as int);
    let line = match parse_request_line(lines[0].as_slice()) {
        Ok(line) => line,
        Err(_) => {
            return Err(ProtocolError::MalformedRequestLine);
        },
    };
    let mut headers: Vec<Header> = Vec::new();
    let mut i: usize = 1;
    proof {
        assert(tail.subrange(0, 0) =~= Seq::<Seq<u8>>::empty());
        assert(models(headers@) =~= Seq::<HeaderModel>::empty());
    }
    while i < lines.len()
        invariant
            1 <= i <= lines@.len(),
            all == line_views(lines@),
            tail == all.subrange(1, all.len() as int),
            head_lines(head@, 0) is Some,
            head_lines(head@, 0).unwrap().0 == all,
            request_line_of(all[0]) is Some,
            headers_of(tail.subrange(0, i - 1)) == Some(models(headers@)),
        decreases lines@.len() - i,
    {
        let ghost done = tail.subrange(0, i - 1);
        let ghost next = tail.subrange(0, i as int);
        proof {
            assert(next.drop_last() =~= done);
            assert(next.last() == lines@[i as int]@);
            assert(tail[i - 1] == lines@[i as int]@);
        }
        match parse_header_line(lines[i].as_slice()) {
            Ok(h) => {
                let ghost kept = models(headers@);
                headers.push(h);
                proof {
                    assert(models(headers@) =~= kept.push(h@));
                }
            },
            Err(_) => {
                proof {
                    lemma_bad_header(tail, i - 1);
                }
                return Err(ProtocolError::MalformedHeader);
            },
        }
        i += 1;
    }
    proof {
        assert(tail.subrange(0, lines@.len() - 1) =~= tail);
    }
    Ok(ProxyRequest { line, headers })
}

/// Whether the head starts with a well-formed `CONNECT` request line.
pub fn asks_for_tunnel(head: &[u8]) -> (r: bool)
    ensures
        r == asks_for_tunnel_of(head@),
{
    match split_head(head) {
        Some(found) => {
            let lines = found.0;
            if lines.len() == 0 {
                false
            } else {
                match parse_request_line(lines[0].as_slice()) {
                    Ok(line) => is_connect(line.method.as_slice()),
                    Err(_) => false,
                }
            }
        },
        None => false,
    }
}

/// The head to send on to the target of a plain request.
pub fn forward_head(request: &ProxyRequest) -> (r: Vec<u8>)
    ensures
        r@ == forward_head_of(request@),
{
    let mut out = forward_request_line(&request.line);
    out.push(CR);
    out.push(LF);
    let kept = strip_proxy_headers(&request.headers);
    let ghost start = out@;
    let ghost all = models(kept@);
    let mut i: usize = 0;
    proof {
        assert(start =~= forward_line_of(
            request.line.method@,
            request.line.target@,
            request.line.version@,
        ) + seq![CR, LF]);
        assert(all.subrange(0, 0) =~= Seq::<HeaderModel>::empty());
        assert(out@ =~= start + headers_text(all.subrange(0, 0)));
    }
    while i < kept.len()
        invariant
            i <= kept@.len(),
            all == models(kept@),
            out@ == start + headers_text(all.subrange(0, i as int)),
        decreases kept@.len() - i,
    {
        let ghost before = out@;
        let h = &kept[i];
        append_range(&mut out, h.name.as_slice(), 0, h.name.len());
        out.push(COLON);
        out.push(SPACE);
        append_range(&mut out, h.value.as_slice(), 0, h.value.len());
        out.push(CR);
        out.push(LF);
        proof {
            let next = all.subrange(0, i + 1);
            assert(next.drop_last() =~= all.subrange(0, i as int));
            assert(next.last() == h@);
            assert(h.name@.subrange(0, h.name@.len() as int) =~= h.name@);
            assert(h.value@.subrange(0, h.value@.len() as int) =~= h.value@);
            assert(out@ =~= before + header_text(h@));
            assert(out@ =~= start + headers_text(next));
        }
        i += 1;
    }
    out.push(CR);
    out.push(LF);
    proof {
        assert(all.subrange(0, kept@.len() as int) =~= all);
        assert(out@ =~= start + headers_text(all) + seq![CR, LF]);
    }
    out
}

} // verus!
