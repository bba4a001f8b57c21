//! The HTTP upgrade: header lines in, the `101 Switching Protocols` response out.

use crate::digest::{
    base64_encode, base64_of, base64_shape_two_over, lemma_base64_shape, sha1_digest, sha1_of,
};
use crate::error::WsError;
use vstd::prelude::*;
use vstd::string::{is_ascii, StringSliceAdditionalSpecFns};

verus! {

/// The fixed string appended to the client's key before hashing.
pub const WS_GUID: &'static str = "258EAFA5-E914-47DA-95CA-C5AB0DC85B11";

/// The header that carries the client's key.
pub const CHALLENGE_HEADER: &'static str = "Sec-WebSocket-Key";

/// The response up to the accept token.
pub const RESPONSE_HEAD: &'static str = "HTTP/1.1 101 Switching Protocols\r\nUpgrade: websocket\r\nConnection: Upgrade\r\nSec-WebSocket-Accept: ";

/// The response after the accept token.
pub const RESPONSE_END: &'static str = "\r\n\r\n";

/// The byte that separates a header's name from its value.
pub const COLON: u8 = 58;

/// One parsed header line.
pub struct HttpHeader {
    pub name: Vec<u8>,
    pub value: Vec<u8>,
}

impl HttpHeader {
    pub open spec fn view(&self) -> (Seq<u8>, Seq<u8>) {
        (self.name@, self.value@)
    }
}

/// A one-byte White_Space character: tab, line feed, vertical tab, form feed,
/// carriage return, space.
pub open spec fn is_space1(b: u8) -> bool {
    (9 <= b && b <= 13) || b == 32
}

/// A two-byte White_Space character in UTF-8: U+0085, U+00A0.
pub open spec fn is_space2(a: u8, b: u8) -> bool {
    a == 0xC2 && (b == 0x85 || b == 0xA0)
}

/// A three-byte White_Space character in UTF-8: U+1680, U+2000 to U+200A,
/// U+2028, U+2029, U+202F, U+205F, U+3000.
pub open spec fn is_space3(a: u8, b: u8, c: u8) -> bool {
    (a == 0xE1 && b == 0x9A && c == 0x80) || (a == 0xE2 && b == 0x80 && ((0x80 <= c && c
        <= 0x8A) || c == 0xA8 || c == 0xA9 || c == 0xAF)) || (a == 0xE2 && b == 0x81 && c
        == 0x9F) || (a == 0xE3 && b == 0x80 && c == 0x80)
}

/// Bytes of the White_Space character that `s` starts with, or 0.
pub open spec fn space_len_at_start(s: Seq<u8>) -> nat {
    if s.len() >= 1 && is_space1(s[0]) {
        1
    } else if s.len() >= 2 && is_space2(s[0], s[1]) {
        2
    } else if s.len() >= 3 && is_space3(s[0], s[1], s[2]) {
        3
    } else {
        0
    }
}

/// Bytes of the White_Space character that `s` ends with, or 0.
pub open spec fn space_len_at_end(s: Seq<u8>) -> nat {
    let n = s.len() as int;
    if n >= 1 && is_space1(s[n - 1]) {
        1
    } else if n >= 2 && is_space2(s[n - 2], s[n - 1]) {
        2
    } else if n >= 3 && is_space3(s[n - 3], s[n - 2], s[n - 1]) {
        3
    } else {
        0
    }
}

pub open spec fn trim_start(s: Seq<u8>) -> Seq<u8>
    decreases s.len(),
{
    let w = space_len_at_start(s);
    if w > 0 {
        trim_start(s.subrange(w as int, s.len() as int))
    } else {
        s
    }
}

pub open spec fn trim_end(s: Seq<u8>) -> Seq<u8>
    decreases s.len(),
{
    let w = space_len_at_end(s);
    if w > 0 {
        trim_end(s.subrange(0, s.len() - w))
    } else {
        s
    }
}

/// The UTF-8 text `s` without leading and trailing White_Space characters.
pub open spec fn trim(s: Seq<u8>) -> Seq<u8> {
    trim_end(trim_start(s))
}

/// Position of the first `b` in `s`, or the length of `s` when there is none.
pub open spec fn index_of(s: Seq<u8>, b: u8) -> int
    decreases s.len(),
{
    if s.len() == 0 || s[0] == b {
        0
    } else {
        1 + index_of(s.drop_first(), b)
    }
}

/// The header a line holds: the name before the first colon and the value up to
/// the next colon or the end of the line, both trimmed. A line without a colon
/// holds none.
pub open spec fn header_spec(line: Seq<u8>) -> Option<(Seq<u8>, Seq<u8>)> {
    let i = index_of(line, 58u8);
    if i >= line.len() {
        None
    } else {
        let rest = line.subrange(i + 1, line.len() as int);
        Some((trim(line.subrange(0, i)), trim(rest.subrange(0, index_of(rest, 58u8)))))
    }
}

/// The headers of consecutive lines, up to the first line that holds none.
pub open spec fn headers_spec(lines: Seq<Seq<u8>>) -> Seq<(Seq<u8>, Seq<u8>)>
    decreases lines.len(),
{
    if lines.len() == 0 {
        seq![]
    } else {
        match header_spec(lines[0]) {
            None => seq![],
            Some(h) => seq![h] + headers_spec(lines.drop_first()),
        }
    }
}

/// The value of the last header named `name`: a later header overrides an earlier one.
pub open spec fn lookup(hs: Seq<(Seq<u8>, Seq<u8>)>, name: Seq<u8>) -> Option<Seq<u8>>
    decreases hs.len(),
{
    if hs.len() == 0 {
        None
    } else if hs.last().0 == name {
        Some(hs.last().1)
    } else {
        lookup(hs.drop_last(), name)
    }
}

/// Position of the first `b` in `s`, or `s.len()`.
pub fn find_byte(s: &[u8], b: u8) -> (r: usize)
    ensures
        r == index_of(s@, b),
        r <= s@.len(),
{
    let mut i: usize = 0;
    assert(s@.subrange(0, s@.len() as int) =~= s@);
    while i < s.len() && s[i] != b
        invariant
            i <= s@.len(),
            index_of(s@, b) == i + index_of(s@.subrange(i as int, s@.len() as int), b),
        decreases s.len() - i,
    {
        assert(s@.subrange(i as int, s@.len() as int).drop_first() =~= s@.subrange(
            i + 1,
            s@.len() as int,
        ));
        i += 1;
    }
    i
}

/// Bytes of the White_Space character that `s` starts with, or 0.
pub fn space_at_start(s: &[u8]) -> (r: usize)
    ensures
        r == space_len_at_start(s@),
{
    let n = s.len();
    if n >= 1 && ((9 <= s[0] && s[0] <= 13) || s[0] == 32) {
        1
    } else if n >= 2 && s[0] == 0xC2 && (s[1] == 0x85 || s[1] == 0xA0) {
        2
    } else if n >= 3 && ((s[0] == 0xE1 && s[1] == 0x9A && s[2] == 0x80) || (s[0] == 0xE2 && s[1]
        == 0x80 && ((0x80 <= s[2] && s[2] <= 0x8A) || s[2] == 0xA8 || s[2] == 0xA9 || s[2]
        == 0xAF)) || (s[0] == 0xE2 && s[1] == 0x81 && s[2] == 0x9F) || (s[0] == 0xE3 && s[1]
        == 0x80 && s[2] == 0x80)) {
        3
    } else {
        0
    }
}

/// Bytes of the White_Space character that `s` ends with, or 0.
pub fn space_at_end(s: &[u8]) -> (r: usize)
    ensures
        r == space_len_at_end(s@),
{
    let n = s.len();
    if n >= 1 && ((9 <= s[n - 1] && s[n - 1] <= 13) || s[n - 1] == 32) {
        1
    } else if n >= 2 && s[n - 2] == 0xC2 && (s[n - 1] == 0x85 || s[n - 1] == 0xA0) {
        2
    } else if n >= 3 && ((s[n - 3] == 0xE1 && s[n - 2] == 0x9A && s[n - 1] == 0x80) || (s[n - 3]
        == 0xE2 && s[n - 2] == 0x80 && ((0x80 <= s[n - 1] && s[n - 1] <= 0x8A) || s[n - 1]
        == 0xA8 || s[n - 1] == 0xA9 || s[n - 1] == 0xAF)) || (s[n - 3] == 0xE2 && s[n - 2]
        == 0x81 && s[n - 1] == 0x9F) || (s[n - 3] == 0xE3 && s[n - 2] == 0x80 && s[n - 1]
        == 0x80)) {
        3
    } else {
        0
    }
}

/// The UTF-8 text `s` without leading and trailing White_Space characters.
pub fn trim_bytes(s: &[u8]) -> (r: Vec<u8>)
    ensures
        r@ == trim(s@),
        r@.len() <= s@.len(),
{
    let mut a: usize = 0;
    let mut done = false;
    assert(s@.subrange(0, s@.len() as int) =~= s@);
    while a < s.len() && !done
        invariant
            a <= s@.len(),
            trim_start(s@) == if done {
                s@.subrange(a as int, s@.len() as int)
            } else {
                trim_start(s@.subrange(a as int, s@.len() as int))
            },
        decreases s@.len() - a + (if done { 0int } else { 1int }),
    {
        let rest = &s[a..s.len()];
        let w = space_at_start(rest);
        if w == 0 {
            done = true;
        } else {
            assert(rest@.subrange(w as int, rest@.len() as int) =~= s@.subrange(
                a + w,
                s@.len() as int,
            ));
            a += w;
        }
    }
    let ghost t = s@.subrange(a as int, s@.len() as int);
    assert(trim_start(s@) == t);
    let mut e: usize = s.len();
    done = false;
    assert(t.subrange(0, t.len() as int) =~= t);
    while e > a && !done
        invariant
            a <= e <= s@.len(),
            t == s@.subrange(a as int, s@.len() as int),
            trim_end(t) == if done {
                s@.subrange(a as int, e as int)
            } else {
                trim_end(s@.subrange(a as int, e as int))
            },
        decreases e - a + (if done { 0int } else { 1int }),
    {
        let part = &s[a..e];
        let w = space_at_end(part);
        if w == 0 {
            done = true;
        } else {
            assert(part@.subrange(0, part@.len() - w) =~= s@.subrange(a as int, e - w));
            e -= w;
        }
    }
    let mut out: Vec<u8> = Vec::new();
    out.extend_from_slice(&s[a..e]);
    out
}

/// Parses one header line; `None` when the line has no colon.
pub fn read_header(line: &[u8]) -> (r: Option<HttpHeader>)
    ensures
        match r {
            None => header_spec(line@) is None,
            Some(h) => header_spec(line@) == Some(h.view()) && h.value@.len() <= line@.len(),
        },
{
    let i = find_byte(line, COLON);
    if i >= line.len() {
        return None;
    }
    let rest = &line[i + 1..line.len()];
    let k = find_byte(rest, COLON);
    let name = trim_bytes(&line[0..i]);
    let value = trim_bytes(&rest[0..k]);
    assert(rest@ =~= line@.subrange(i + 1, line@.len() as int));
    Some(HttpHeader { name, value })
}

/// The byte strings of a sequence of lines.
pub open spec fn lines_view(lines: Seq<Vec<u8>>) -> Seq<Seq<u8>> {
    lines.map_values(|l: Vec<u8>| l@)
}

/// The name/value pairs of parsed headers.
pub open spec fn headers_view(hs: Seq<HttpHeader>) -> Seq<(Seq<u8>, Seq<u8>)> {
    hs.map_values(|h: HttpHeader| h.view())
}

/// The headers of a request whose first line is the request line.
pub open spec fn request_headers(lines: Seq<Seq<u8>>) -> Seq<(Seq<u8>, Seq<u8>)> {
    if lines.len() == 0 {
        seq![]
    } else {
        headers_spec(lines.drop_first())
    }
}

/// The accept token for client key `key`: base64 of the SHA-1 of the key followed by the GUID.
pub open spec fn accept_token_spec(key: Seq<u8>) -> Seq<u8> {
    base64_of(sha1_of(key + WS_GUID.spec_bytes()))
}

/// The complete upgrade response carrying accept token `token`.
pub open spec fn response_spec(token: Seq<u8>) -> Seq<u8> {
    RESPONSE_HEAD.spec_bytes() + token + RESPONSE_END.spec_bytes()
}

/// The client's key in the request `lines`: the value of the last
/// `Sec-WebSocket-Key` header parsed.
pub open spec fn challenge_key(lines: Seq<Seq<u8>>) -> Option<Seq<u8>> {
    lookup(request_headers(lines), CHALLENGE_HEADER.spec_bytes())
}

/// An accept token: 28 base64 characters, the last one `=`.
pub open spec fn token_shape(t: Seq<u8>) -> bool {
    t.len() == 28 && base64_shape_two_over(t, 20)
}

/// The outcome of the handshake on the request `lines`: the response to write,
/// or `MissingChallenge` when no `Sec-WebSocket-Key` header was parsed.
pub open spec fn handshake_spec(lines: Seq<Seq<u8>>) -> Result<Seq<u8>, WsError> {
    match challenge_key(lines) {
        None => Err(WsError::MissingChallenge),
        Some(key) => Ok(response_spec(accept_token_spec(key))),
    }
}

/// The key followed by the GUID: what the accept token hashes.
pub fn challenge_input(key: &[u8]) -> (r: Vec<u8>)
    ensures
        r@ == key@ + WS_GUID.spec_bytes(),
        key@.len() < 0x1000_0000_0000_0000 ==> r@.len() < 0x2000_0000_0000_0000,
{
    proof {
        reveal_strlit("258EAFA5-E914-47DA-95CA-C5AB0DC85B11");
        assert(is_ascii(WS_GUID));
    }
    let mut input: Vec<u8> = Vec::new();
    input.extend_from_slice(key);
    input.extend_from_slice(WS_GUID.as_bytes());
    input
}

/// The accept token for client key `key`.
pub fn accept_token(key: &[u8]) -> (r: Vec<u8>)
    requires
        key@.len() < 0x1000_0000_0000_0000,
    ensures
        r@ == accept_token_spec(key@),
        sha1_of(key@ + WS_GUID.spec_bytes()).len() == 20,
        token_shape(r@),
{
    let input = challenge_input(key);
    let digest = sha1_digest(&input);
    proof {
        lemma_base64_shape(digest@);
    }
    base64_encode(&digest)
}

/// The headers of `lines[start..]`, up to the first line that holds none.
pub fn read_headers(lines: &Vec<Vec<u8>>, start: usize) -> (r: Vec<HttpHeader>)
    requires
        start <= lines@.len(),
    ensures
        headers_view(r@) == headers_spec(
            lines_view(lines@).subrange(start as int, lines@.len() as int),
        ),
        (forall|i: int| 0 <= i < lines@.len() ==> #[trigger] lines@[i]@.len() < 0x1000_0000_0000_0000)
            ==> (forall|j: int| 0 <= j < r@.len() ==> #[trigger] r@[j].value@.len() < 0x1000_0000_0000_0000),
{
    let ghost lv = lines_view(lines@);
    let mut out: Vec<HttpHeader> = Vec::new();
    let mut i: usize = start;
    let mut done = false;
    while i < lines.len() && !done
        invariant
            start <= i <= lines@.len(),
            lv == lines_view(lines@),
            (forall|k: int| 0 <= k < lines@.len() ==> #[trigger] lines@[k]@.len() < 0x1000_0000_0000_0000)
                ==> (forall|j: int| 0 <= j < out@.len() ==> #[trigger] out@[j].value@.len() < 0x1000_0000_0000_0000),
            headers_view(out@) + (if done {
                seq![]
            } else {
                headers_spec(lv.subrange(i as int, lv.len() as int))
            }) == headers_spec(lv.subrange(start as int, lv.len() as int)),
        decreases lines@.len() - i + (if done { 0int } else { 1int }),
    {
        let ghost rest = lv.subrange(i as int, lv.len() as int);
        assert(rest[0] == lines@[i as int]@);
        assert(rest.drop_first() =~= lv.subrange(i + 1, lv.len() as int));
        match read_header(lines[i].as_slice()) {
            None => {
                assert(headers_view(out@) + seq![] =~= headers_view(out@));
                done = true;
            },
            Some(h) => {
                let ghost before = headers_view(out@);
                out.push(h);
                assert(headers_view(out@) =~= before + seq![h.view()]);
                assert(headers_view(out@) + headers_spec(rest.drop_first()) =~= before + (seq![
                    h.view(),
                ] + headers_spec(rest.drop_first())));
                i += 1;
            },
        }
    }
    if !done {
        assert(lv.subrange(i as int, lv.len() as int) =~= Seq::<Seq<u8>>::empty());
    }
    assert(headers_view(out@) + seq![] =~= headers_view(out@));
    out
}

/// Whether two byte strings are equal.
pub fn bytes_eq(a: &[u8], b: &[u8]) -> (r: bool)
    ensures
        r == (a@ == b@),
{
    if a.len() != b.len() {
        return false;
    }
    let mut i: usize = 0;
    while i < a.len()
        invariant
            a@.len() == b@.len(),
            i <= a@.len(),
            forall|j: int| 0 <= j < i ==> a@[j] == b@[j],
        decreases a.len() - i,
    {
        if a[i] != b[i] {
            return false;
        }
        i += 1;
    }
    assert(a@ =~= b@);
    true
}

/// The value of the last header named `name`.
pub fn find_header(hs: &Vec<HttpHeader>, name: &[u8]) -> (r: Option<Vec<u8>>)
    ensures
        match r {
            None => lookup(headers_view(hs@), name@) is None,
            Some(v) => lookup(headers_view(hs@), name@) == Some(v@) && exists|j: int|
                0 <= j < hs@.len() && v@ == #[trigger] hs@[j].value@,
        },
{
    let ghost hv = headers_view(hs@);
    let mut i: usize = hs.len();
    assert(hv.subrange(0, hv.len() as int) =~= hv);
    while i > 0
        invariant
            i <= hs@.len(),
            hv == headers_view(hs@),
            lookup(hv, name@) == lookup(hv.subrange(0, i as int), name@),
        decreases i,
    {
        let ghost sub = hv.subrange(0, i as int);
        assert(sub.last() == hs@[i - 1].view());
        if bytes_eq(hs[i - 1].name.as_slice(), name) {
            let mut v: Vec<u8> = Vec::new();
            v.extend_from_slice(hs[i - 1].value.as_slice());
            assert(v@ == hs@[i - 1].value@);
            return Some(v);
        }
        assert(sub.drop_last() =~= hv.subrange(0, i - 1));
        i -= 1;
    }
    None
}

/// The upgrade response carrying accept token `token`.
pub fn handshake_response(token: &[u8]) -> (r: Vec<u8>)
    ensures
        r@ == response_spec(token@),
{
    let mut out: Vec<u8> = Vec::new();
    out.extend_from_slice(RESPONSE_HEAD.as_bytes());
    out.extend_from_slice(token);
    out.extend_from_slice(RESPONSE_END.as_bytes());
    out
}

/// Runs the handshake on the request `lines` (the request line, then the
/// header lines): the response to write, or `MissingChallenge`.
pub fn negotiate(lines: &Vec<Vec<u8>>) -> (r: Result<Vec<u8>, WsError>)
    requires
        forall|i: int| 0 <= i < lines@.len() ==> #[trigger] lines@[i]@.len() < 0x1000_0000_0000_0000,
    ensures
        match r {
            Ok(resp) => handshake_spec(lines_view(lines@)) == Ok::<Seq<u8>, WsError>(resp@),
            Err(e) => handshake_spec(lines_view(lines@)) == Err::<Seq<u8>, WsError>(e),
        },
        challenge_key(lines_view(lines@)) is Some ==> sha1_of(
            challenge_key(lines_view(lines@))->Some_0 + WS_GUID.spec_bytes(),
        ).len() == 20 && token_shape(accept_token_spec(challenge_key(lines_view(lines@))->Some_0)),
{
    let ghost lv = lines_view(lines@);
    let headers = if lines.len() == 0 {
        Vec::new()
    } else {
        read_headers(lines, 1)
    };
    assert(lv.len() > 0 ==> lv.drop_first() =~= lv.subrange(1, lv.len() as int));
    assert(headers_view(headers@) == request_headers(lv));
    match find_header(&headers, CHALLENGE_HEADER.as_bytes()) {
        None => Err(WsError::MissingChallenge),
        Some(key) => {
            let token = accept_token(key.as_slice());
            Ok(handshake_response(token.as_slice()))
        },
    }
}

/// A line without a colon ends the headers without failing: the lines after it
/// are not parsed, and the headers of the lines before it are kept.
pub proof fn lemma_header_stop(lines: Seq<Seq<u8>>, k: int)
    requires
        0 <= k < lines.len(),
        header_spec(lines[k]) is None,
    ensures
        headers_spec(lines) == headers_spec(lines.subrange(0, k)),
    decreases k,
{
    if k == 0 {
        assert(lines.subrange(0, 0) =~= Seq::<Seq<u8>>::empty());
    } else {
        let pre = lines.subrange(0, k);
        assert(pre[0] == lines[0]);
        if header_spec(lines[0]) is Some {
            lemma_header_stop(lines.drop_first(), k - 1);
            assert(lines.drop_first().subrange(0, k - 1) =~= pre.drop_first());
        }
    }
}

/// A request whose headers carry the key `k` is answered with the upgrade
/// response whose token is the base64 of the SHA-1 of `k` followed by the GUID.
pub proof fn lemma_accept_response(lines: Seq<Seq<u8>>, k: Seq<u8>)
    requires
        challenge_key(lines) == Some(k),
    ensures
        handshake_spec(lines) == Ok::<Seq<u8>, WsError>(RESPONSE_HEAD.spec_bytes() + base64_of(
            sha1_of(k + WS_GUID.spec_bytes()),
        ) + RESPONSE_END.spec_bytes()),
{
}

/// A request whose headers carry no key fails with `MissingChallenge`.
pub proof fn lemma_missing_challenge(lines: Seq<Seq<u8>>)
    requires
        challenge_key(lines) is None,
    ensures
        handshake_spec(lines) == Err::<Seq<u8>, WsError>(WsError::MissingChallenge),
{
}

} // verus!
