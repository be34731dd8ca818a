//! The first line of a proxy request: its three parts, and the host and
//! port that it asks for.

use vstd::prelude::*;

verus! {

pub const SPACE: u8 = 0x20;

pub const COLON: u8 = 0x3a;

pub const SLASH: u8 = 0x2f;

pub const OPEN_BRACKET: u8 = 0x5b;

pub const CLOSE_BRACKET: u8 = 0x5d;

/// Port of a plain request whose authority names none.
pub const DEFAULT_HTTP_PORT: u16 = 80;

/// The method that asks for a tunnel, `CONNECT`.
pub open spec fn connect_method() -> Seq<u8> {
    seq![0x43u8, 0x4fu8, 0x4eu8, 0x4eu8, 0x45u8, 0x43u8, 0x54u8]
}

/// The scheme prefix of an absolute URI that a plain request carries,
/// `http://`.
pub open spec fn http_scheme() -> Seq<u8> {
    seq![0x68u8, 0x74u8, 0x74u8, 0x70u8, 0x3au8, 0x2fu8, 0x2fu8]
}

pub open spec fn is_digit(b: u8) -> bool {
    0x30 <= b <= 0x39
}

/// Position of the first `b` in `s` at or after `from`; the length of `s`
/// where there is none.
pub open spec fn first_at(s: Seq<u8>, b: u8, from: int) -> int
    decreases s.len() - from,
{
    if from < 0 || from >= s.len() {
        s.len() as int
    } else if s[from] == b {
        from
    } else {
        first_at(s, b, from + 1)
    }
}

/// `HTTP/` digit `.` digit.
pub open spec fn is_http_version(v: Seq<u8>) -> bool {
    &&& v.len() == 8
    &&& v[0] == 0x48
    &&& v[1] == 0x54
    &&& v[2] == 0x54
    &&& v[3] == 0x50
    &&& v[4] == 0x2f
    &&& is_digit(v[5])
    &&& v[6] == 0x2e
    &&& is_digit(v[7])
}

/// Method, target and version of a request line: the line holds exactly two
/// spaces, no part is empty, and the last part is an HTTP version.
pub open spec fn request_line_of(line: Seq<u8>) -> Option<(Seq<u8>, Seq<u8>, Seq<u8>)> {
    let a = first_at(line, SPACE, 0);
    let b = first_at(line, SPACE, a + 1);
    let c = first_at(line, SPACE, b + 1);
    if 0 < a && a + 1 < b && b < line.len() && c == line.len() && is_http_version(
        line.subrange(b + 1, line.len() as int),
    ) {
        Some((line.subrange(0, a), line.subrange(a + 1, b), line.subrange(b + 1, line.len() as int)))
    } else {
        None
    }
}

/// The number that a run of decimal digits writes.
pub open spec fn decimal_value(d: Seq<u8>) -> int
    decreases d.len(),
{
    if d.len() == 0 {
        0
    } else {
        10 * decimal_value(d.drop_last()) + (d.last() - 0x30)
    }
}

/// One to five decimal digits that write a number of at most 65535.
pub open spec fn is_port(d: Seq<u8>) -> bool {
    &&& 1 <= d.len() <= 5
    &&& forall|i: int| 0 <= i < d.len() ==> is_digit(#[trigger] d[i])
    &&& decimal_value(d) <= 65535
}

/// Where the host of an authority ends: behind the closing bracket of an
/// address literal, else before the first colon. An opening bracket that
/// is never closed puts the end behind the authority.
pub open spec fn host_end(a: Seq<u8>) -> int {
    if a.len() > 0 && a[0] == OPEN_BRACKET {
        first_at(a, CLOSE_BRACKET, 0) + 1
    } else {
        first_at(a, COLON, 0)
    }
}

/// Host and port of `host[:port]`. The host is not empty; a port that is
/// left out is the default one, and without a default it is required.
pub open spec fn authority_of(a: Seq<u8>, default_port: Option<u16>) -> Option<(Seq<u8>, u16)> {
    let h = host_end(a);
    if h <= 0 || h > a.len() {
        None
    } else if h == a.len() {
        match default_port {
            Some(p) => Some((a, p)),
            None => None,
        }
    } else if a[h] != COLON {
        None
    } else if is_port(a.subrange(h + 1, a.len() as int)) {
        Some((a.subrange(0, h), decimal_value(a.subrange(h + 1, a.len() as int)) as u16))
    } else {
        None
    }
}

/// The authority of `http://authority[/...]`.
pub open spec fn absolute_uri_authority(target: Seq<u8>) -> Option<Seq<u8>> {
    if target.len() >= 7 && target.subrange(0, 7) == http_scheme() {
        Some(target.subrange(7, first_at(target, SLASH, 7)))
    } else {
        None
    }
}

/// How a session serves its client.
#[derive(Clone, Copy, Debug, PartialEq, Eq, Structural)]
pub enum ProxyMode {
    /// Forward one HTTP request and relay the answer.
    Direct,
    /// Open an opaque byte tunnel.
    Tunnel,
}

/// What is wrong with a request.
#[derive(Clone, Copy, Debug, PartialEq, Eq, Structural)]
pub enum ProtocolError {
    /// The first line is not `method SP target SP HTTP-version`.
    MalformedRequestLine,
    /// The target names no host and port that could be dialed.
    InvalidTarget,
    /// A header line is not `name: value`.
    MalformedHeader,
    /// The empty line that ends the head is missing.
    IncompleteHead,
}

/// Mode, host and port that a method and a target ask for. `CONNECT` takes
/// `host:port` with the port written out; every other method takes an
/// absolute `http` URI, whose port defaults to 80.
pub open spec fn route_of(method: Seq<u8>, target: Seq<u8>) -> Option<(ProxyMode, Seq<u8>, u16)> {
    if method == connect_method() {
        match authority_of(target, None) {
            Some(hp) => Some((ProxyMode::Tunnel, hp.0, hp.1)),
            None => None,
        }
    } else {
        match absolute_uri_authority(target) {
            Some(a) => match authority_of(a, Some(DEFAULT_HTTP_PORT)) {
                Some(hp) => Some((ProxyMode::Direct, hp.0, hp.1)),
                None => None,
            },
            None => None,
        }
    }
}

/// The three parts of a request line.
#[derive(Clone, Debug, PartialEq, Eq)]
pub struct RequestLine {
    pub method: Vec<u8>,
    pub target: Vec<u8>,
    pub version: Vec<u8>,
}

/// A host to dial, as the client wrote it, and a port.
#[derive(Clone, Debug, PartialEq, Eq)]
pub struct Target {
    pub host: Vec<u8>,
    pub port: u16,
}

/// What a request asks the proxy to do.
#[derive(Clone, Debug, PartialEq, Eq)]
pub struct Route {
    pub mode: ProxyMode,
    pub target: Target,
}

/// Position of the first `b` in `s` at or after `from`.
pub fn find_byte(s: &[u8], b: u8, from: usize) -> (r: usize)
    ensures
        r == first_at(s@, b, from as int),
        r <= s@.len(),
        from <= s@.len() ==> from <= r,
{
    let mut i: usize = from;
    while i < s.len()
        invariant
            from <= i,
            first_at(s@, b, from as int) == first_at(s@, b, i as int),
        decreases s@.len() - i,
    {
        if s[i] == b {
            return i;
        }
        i += 1;
    }
    s.len()
}

/// The bytes of `s` from `from` up to `to`.
pub fn copy_range(s: &[u8], from: usize, to: usize) -> (r: Vec<u8>)
    requires
        from <= to <= s@.len(),
    ensures
        r@ == s@.subrange(from as int, to as int),
{
    let mut out: Vec<u8> = Vec::new();
    let mut i: usize = from;
    while i < to
        invariant
            from <= i <= to,
            to <= s@.len(),
            out@ == s@.subrange(from as int, i as int),
        decreases to - i,
    {
        out.push(s[i]);
        proof {
            assert(out@ =~= s@.subrange(from as int, i + 1));
        }
        i += 1;
    }
    proof {
        assert(out@ =~= s@.subrange(from as int, to as int));
    }
    out
}

fn digit(b: u8) -> (r: bool)
    ensures
        r == is_digit(b),
{
    0x30 <= b && b <= 0x39
}

/// Splits a request line, given without its line end, into method, target
/// and version.
pub fn parse_request_line(line: &[u8]) -> (r: Result<RequestLine, ProtocolError>)
    ensures
        match request_line_of(line@) {
            Some(parts) => r.is_ok() && r.unwrap().method@ == parts.0 && r.unwrap().target@
                == parts.1 && r.unwrap().version@ == parts.2,
            None => r == Err::<RequestLine, ProtocolError>(ProtocolError::MalformedRequestLine),
        },
{
    let n = line.len();
    let a = find_byte(line, SPACE, 0);
    if a == 0 || a >= n {
        return Err(ProtocolError::MalformedRequestLine);
    }
    let b = find_byte(line, SPACE, a + 1);
    if b <= a + 1 || b >= n {
        return Err(ProtocolError::MalformedRequestLine);
    }
    let c = find_byte(line, SPACE, b + 1);
    if c != n || n - (b + 1) != 8 {
        return Err(ProtocolError::MalformedRequestLine);
    }
    let v = b + 1;
    let ghost version = line@.subrange(v as int, n as int);
    proof {
        assert(forall|k: int| 0 <= k < 8 ==> version[k] == line@[v + k]);
    }
    if !(line[v] == 0x48 && line[v + 1] == 0x54 && line[v + 2] == 0x54 && line[v + 3] == 0x50
        && line[v + 4] == 0x2f && digit(line[v + 5]) && line[v + 6] == 0x2e && digit(
        line[v + 7],
    )) {
        return Err(ProtocolError::MalformedRequestLine);
    }
    Ok(
        RequestLine {
            method: copy_range(line, 0, a),
            target: copy_range(line, a + 1, b),
            version: copy_range(line, v, n),
        },
    )
}

/// The port that the bytes of `s` from `from` on write in decimal.
pub fn parse_port(s: &[u8], from: usize) -> (r: Option<u16>)
    requires
        from <= s@.len(),
    ensures
        is_port(s@.subrange(from as int, s@.len() as int)) ==> r == Some(
            decimal_value(s@.subrange(from as int, s@.len() as int)) as u16,
        ),
        !is_port(s@.subrange(from as int, s@.len() as int)) ==> r.is_none(),
{
    let n = s.len();
    let ghost digits = s@.subrange(from as int, n as int);
    if n - from == 0 || n - from > 5 {
        return None;
    }
    let mut acc: u32 = 0;
    let mut i: usize = from;
    while i < n
        invariant
            from <= i <= n,
            n == s@.len(),
            n - from <= 5,
            digits == s@.subrange(from as int, n as int),
            acc == decimal_value(digits.subrange(0, i - from)),
            forall|k: int| 0 <= k < i - from ==> is_digit(#[trigger] digits[k]),
            i - from == 0 ==> acc == 0,
            i - from == 1 ==> acc < 10,
            i - from == 2 ==> acc < 100,
            i - from == 3 ==> acc < 1000,
            i - from == 4 ==> acc < 10000,
            i - from == 5 ==> acc < 100000,
        decreases n - i,
    {
        let d = s[i];
        if !digit(d) {
            proof {
                assert(digits[i - from] == d);
            }
            return None;
        }
        proof {
            let next = digits.subrange(0, i - from + 1);
            assert(next.drop_last() =~= digits.subrange(0, i - from));
            assert(next.last() == d);
        }
        acc = acc * 10 + (d - 0x30) as u32;
        i += 1;
    }
    proof {
        assert(digits.subrange(0, n - from) =~= digits);
    }
    if acc > 65535 {
        None
    } else {
        Some(acc as u16)
    }
}

/// Host and port of `host[:port]`.
pub fn parse_authority(a: &[u8], default_port: Option<u16>) -> (r: Result<Target, ProtocolError>)
    ensures
        match authority_of(a@, default_port) {
            Some(hp) => r.is_ok() && r.unwrap().host@ == hp.0 && r.unwrap().port == hp.1,
            None => r == Err::<Target, ProtocolError>(ProtocolError::InvalidTarget),
        },
{
    let n = a.len();
    if n == 0 {
        return Err(ProtocolError::InvalidTarget);
    }
    let h: usize = if a[0] == OPEN_BRACKET {
        let e = find_byte(a, CLOSE_BRACKET, 0);
        if e >= n {
            return Err(ProtocolError::InvalidTarget);
        }
        e + 1
    } else {
        find_byte(a, COLON, 0)
    };
    if h == 0 {
        return Err(ProtocolError::InvalidTarget);
    }
    if h == n {
        return match default_port {
            Some(p) => {
                proof {
                    assert(a@.subrange(0, n as int) =~= a@);
                }
                Ok(Target { host: copy_range(a, 0, n), port: p })
            },
            None => Err(ProtocolError::InvalidTarget),
        };
    }
    if a[h] != COLON {
        return Err(ProtocolError::InvalidTarget);
    }
    match parse_port(a, h + 1) {
        Some(port) => Ok(Target { host: copy_range(a, 0, h), port }),
        None => Err(ProtocolError::InvalidTarget),
    }
}

/// Whether the method is `CONNECT`, letter for letter.
pub fn is_connect(method: &[u8]) -> (r: bool)
    ensures
        r == (method@ == connect_method()),
{
    let r = method.len() == 7 && method[0] == 0x43 && method[1] == 0x4f && method[2] == 0x4e
        && method[3] == 0x4e && method[4] == 0x45 && method[5] == 0x43 && method[6] == 0x54;
    proof {
        if r {
            assert(method@ =~= connect_method());
        }
    }
    r
}

fn has_http_scheme(target: &[u8]) -> (r: bool)
    ensures
        r == (target@.len() >= 7 && target@.subrange(0, 7) == http_scheme()),
{
    let r = target.len() >= 7 && target[0] == 0x68 && target[1] == 0x74 && target[2] == 0x74
        && target[3] == 0x70 && target[4] == 0x3a && target[5] == 0x2f && target[6] == 0x2f;
    proof {
        if target@.len() >= 7 {
            let p = target@.subrange(0, 7);
            assert(forall|k: int| 0 <= k < 7 ==> p[k] == target@[k]);
            if r {
                assert(p =~= http_scheme());
            }
        }
    }
    r
}

/// The mode that a request asks for and the host and port to dial.
pub fn route(request: &RequestLine) -> (r: Result<Route, ProtocolError>)
    ensures
        match route_of(request.method@, request.target@) {
            Some(t) => r.is_ok() && r.unwrap().mode == t.0 && r.unwrap().target.host@ == t.1
                && r.unwrap().target.port == t.2,
            None => r == Err::<Route, ProtocolError>(ProtocolError::InvalidTarget),
        },
{
    if is_connect(request.method.as_slice()) {
        match parse_authority(request.target.as_slice(), None) {
            Ok(target) => Ok(Route { mode: ProxyMode::Tunnel, target }),
            Err(_) => Err(ProtocolError::InvalidTarget),
        }
    } else if has_http_scheme(request.target.as_slice()) {
        let end = find_byte(request.target.as_slice(), SLASH, 7);
        let authority = copy_range(request.target.as_slice(), 7, end);
        match parse_authority(authority.as_slice(), Some(DEFAULT_HTTP_PORT)) {
            Ok(target) => Ok(Route { mode: ProxyMode::Direct, target }),
            Err(_) => Err(ProtocolError::InvalidTarget),
        }
    } else {
        Err(ProtocolError::InvalidTarget)
    }
}

/// The path and query of an absolute `http` URI, as the target is written
/// to an origin server: what follows the authority, or `/` where nothing
/// follows it.
pub open spec fn origin_form_of(target: Seq<u8>) -> Seq<u8> {
    let e = first_at(target, SLASH, 7);
    if e >= target.len() {
        seq![SLASH]
    } else {
        target.subrange(e, target.len() as int)
    }
}

/// The request line that is sent on to the target of a plain request: the
/// method and version as they came, the target in origin form.
pub open spec fn forward_line_of(method: Seq<u8>, target: Seq<u8>, version: Seq<u8>) -> Seq<u8> {
    method + seq![SPACE] + origin_form_of(target) + seq![SPACE] + version
}

/// Appends the bytes of `s` from `from` up to `to`.
pub fn append_range(out: &mut Vec<u8>, s: &[u8], from: usize, to: usize)
    requires
        from <= to <= s@.len(),
    ensures
        final(out)@ == old(out)@ + s@.subrange(from as int, to as int),
{
    let ghost before = out@;
    let mut i: usize = from;
    proof {
        assert(out@ =~= before + s@.subrange(from as int, from as int));
    }
    while i < to
        invariant
            from <= i <= to,
            to <= s@.len(),
            out@ == before + s@.subrange(from as int, i as int),
        decreases to - i,
    {
        out.push(s[i]);
        proof {
            assert(out@ =~= before + s@.subrange(from as int, i + 1));
        }
        i += 1;
    }
}

/// The request line to send on to the target of a plain request, without
/// its line end.
pub fn forward_request_line(request: &RequestLine) -> (r: Vec<u8>)
    ensures
        r@ == forward_line_of(request.method@, request.target@, request.version@),
{
    let target = request.target.as_slice();
    let mut out: Vec<u8> = Vec::new();
    append_range(&mut out, request.method.as_slice(), 0, request.method.len());
    out.push(SPACE);
    let e = find_byte(target, SLASH, 7);
    if e >= target.len() {
        out.push(SLASH);
    } else {
        append_range(&mut out, target, e, target.len());
    }
    out.push(SPACE);
    append_range(&mut out, request.version.as_slice(), 0, request.version.len());
    proof {
        assert(request.method@.subrange(0, request.method@.len() as int) =~= request.method@);
        assert(request.version@.subrange(0, request.version@.len() as int) =~= request.version@);
        assert(out@ =~= forward_line_of(request.method@, request.target@, request.version@));
    }
    out
}

/// What `first_at` finds: a position from `from` on, with no `b` before
/// it, that holds `b` unless it is the end.
pub proof fn lemma_first_at(s: Seq<u8>, b: u8, from: int)
    requires
        0 <= from <= s.len(),
    ensures
        from <= first_at(s, b, from) <= s.len(),
        first_at(s, b, from) < s.len() ==> s[first_at(s, b, from)] == b,
        forall|j: int| from <= j < first_at(s, b, from) ==> s[j] != b,
    decreases s.len() - from,
{
    if from < s.len() && s[from] != b {
        lemma_first_at(s, b, from + 1);
    }
}

/// The only position that `first_at` can find.
pub proof fn lemma_first_at_is(s: Seq<u8>, b: u8, from: int, at: int)
    requires
        0 <= from <= at <= s.len(),
        at < s.len() ==> s[at] == b,
        forall|j: int| from <= j < at ==> s[j] != b,
    ensures
        first_at(s, b, from) == at,
    decreases at - from,
{
    if from < at {
        lemma_first_at_is(s, b, from + 1, at);
    }
}

/// A method and a target without spaces, neither empty, and an HTTP
/// version, joined by single spaces, are read back as they were joined.
pub proof fn lemma_request_line_round_trip(method: Seq<u8>, target: Seq<u8>, version: Seq<u8>)
    requires
        method.len() > 0,
        target.len() > 0,
        forall|i: int| 0 <= i < method.len() ==> method[i] != SPACE,
        forall|i: int| 0 <= i < target.len() ==> target[i] != SPACE,
        is_http_version(version),
    ensures
        request_line_of(method + seq![SPACE] + target + seq![SPACE] + version) == Some(
            (method, target, version),
        ),
{
    let line = method + seq![SPACE] + target + seq![SPACE] + version;
    let a = method.len() as int;
    let b = a + 1 + target.len();
    let n = line.len() as int;
    assert(n == b + 1 + 8);
    assert forall|j: int| 0 <= j < a implies line[j] != SPACE by {
        assert(line[j] == method[j]);
    }
    assert(line[a] == SPACE);
    assert forall|j: int| a + 1 <= j < b implies line[j] != SPACE by {
        assert(line[j] == target[j - a - 1]);
    }
    assert(line[b] == SPACE);
    assert forall|j: int| b + 1 <= j < n implies line[j] != SPACE by {
        assert(line[j] == version[j - b - 1]);
    }
    lemma_first_at_is(line, SPACE, 0, a);
    lemma_first_at_is(line, SPACE, a + 1, b);
    lemma_first_at_is(line, SPACE, b + 1, n);
    assert(line.subrange(0, a) =~= method);
    assert(line.subrange(a + 1, b) =~= target);
    assert(line.subrange(b + 1, n) =~= version);
}

} // verus!
