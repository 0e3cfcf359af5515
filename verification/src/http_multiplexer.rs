//! The HTTP front of the WebSocket ports: one request is parsed and answered
//! with the static asset, with the WebSocket upgrade, or with 404.

use crate::text::same_text;
use base64::Engine;
use sha1::Digest;
use vstd::prelude::*;
use vstd::string::StrSliceExecFns;
use vstd::string::StringExecFns;
use vstd::utf8::encode_utf8;

verus! {

/// What `httparse` makes of the bytes of a request, parsed with room for 64
/// headers: the request where it is complete, `Partial` where more bytes are
/// needed, `Invalid` where they are no request.
pub uninterp spec fn http_request(bytes: Seq<u8>) -> ParsedView;

/// The reason phrase that the `http` crate knows for a status code, if any.
pub uninterp spec fn http_canonical_reason(status: u16) -> Option<Seq<char>>;

/// The form in which the `http` crate holds a header name, or `None` where it
/// refuses the name.
pub uninterp spec fn http_header_name(name: Seq<char>) -> Option<Seq<char>>;

/// The SHA-1 digest of a byte string, as the `sha1` crate computes it.
pub uninterp spec fn sha1(data: Seq<u8>) -> Seq<u8>;

/// The standard base64 text of a byte string, with padding, as the `base64`
/// crate writes it.
pub uninterp spec fn base64_standard(data: Seq<u8>) -> Seq<char>;

/// Whether a character can stand in base64 text.
pub open spec fn is_base64_char(c: char) -> bool {
    ('a' <= c && c <= 'z') || ('A' <= c && c <= 'Z') || ('0' <= c && c <= '9') || c == '+' || c
        == '/' || c == '='
}

/// The GUID that RFC 6455 appends to a WebSocket key.
pub open spec fn websocket_guid() -> Seq<char> {
    "258EAFA5-E914-47DA-95CA-C5AB0DC85B11"@
}

/// The characters of an optional text.
pub open spec fn option_text(text: Option<String>) -> Option<Seq<char>> {
    match text {
        Some(text) => Some(text@),
        None => None,
    }
}

/// The decimal digit for a number below ten.
pub open spec fn digit(n: nat) -> char {
    (('0' as u8) + n) as u8 as char
}

/// The decimal text of a number.
pub open spec fn decimal(n: nat) -> Seq<char>
    decreases n,
{
    if n < 10 {
        seq![digit(n)]
    } else {
        decimal(n / 10).push(digit(n % 10))
    }
}

/// One header of a request.
#[derive(Debug, PartialEq)]
pub struct Header {
    pub name: String,
    pub value: Vec<u8>,
}

/// The mathematical value of a [`Header`].
pub struct HeaderView {
    pub name: Seq<char>,
    pub value: Seq<u8>,
}

impl View for Header {
    type V = HeaderView;

    open spec fn view(&self) -> HeaderView {
        HeaderView { name: self.name@, value: self.value@ }
    }
}

/// The head of a request: its method, its path and its headers in order.
#[derive(Debug, PartialEq)]
pub struct Request {
    pub method: Option<String>,
    pub path: Option<String>,
    pub headers: Vec<Header>,
}

/// The mathematical value of a [`Request`].
pub struct RequestView {
    pub method: Option<Seq<char>>,
    pub path: Option<Seq<char>>,
    pub headers: Seq<HeaderView>,
}

impl View for Request {
    type V = RequestView;

    open spec fn view(&self) -> RequestView {
        RequestView {
            method: option_text(self.method),
            path: option_text(self.path),
            headers: self.headers@.map_values(|header: Header| header@),
        }
    }
}

/// What the bytes received so far amount to.
#[derive(Debug, PartialEq)]
pub enum Parsed {
    Complete(Request),
    Partial,
    Invalid,
}

/// The mathematical value of a [`Parsed`].
pub enum ParsedView {
    Complete(RequestView),
    Partial,
    Invalid,
}

impl View for Parsed {
    type V = ParsedView;

    open spec fn view(&self) -> ParsedView {
        match *self {
            Parsed::Complete(request) => ParsedView::Complete(request@),
            Parsed::Partial => ParsedView::Partial,
            Parsed::Invalid => ParsedView::Invalid,
        }
    }
}

/// What to do with a connection after looking at the bytes received so far.
#[derive(Debug, PartialEq)]
pub enum Route {
    /// The request is not complete: read more bytes and ask again.
    ReadMore,
    /// Close the connection without an answer.
    Reject,
    /// Write these bytes and close the connection.
    Respond(Vec<u8>),
    /// Write these bytes and go on as a WebSocket in the server role.
    Upgrade(Vec<u8>),
}

/// The mathematical value of a [`Route`].
pub enum RouteView {
    ReadMore,
    Reject,
    Respond(Seq<u8>),
    Upgrade(Seq<u8>),
}

impl View for Route {
    type V = RouteView;

    open spec fn view(&self) -> RouteView {
        match *self {
            Route::ReadMore => RouteView::ReadMore,
            Route::Reject => RouteView::Reject,
            Route::Respond(bytes) => RouteView::Respond(bytes@),
            Route::Upgrade(bytes) => RouteView::Upgrade(bytes@),
        }
    }
}

/// The characters of each name and value of a list of headers.
pub open spec fn pair_views(headers: Seq<(String, String)>) -> Seq<(Seq<char>, Seq<char>)> {
    headers.map_values(|pair: (String, String)| (pair.0@, pair.1@))
}

/// The header lines of a response head.
pub open spec fn header_lines(headers: Seq<(Seq<char>, Seq<char>)>) -> Seq<char>
    decreases headers.len(),
{
    if headers.len() == 0 {
        Seq::empty()
    } else {
        header_lines(headers.drop_last()) + headers.last().0 + ": "@ + headers.last().1 + "\r\n"@
    }
}

/// The status line of a response head.
pub open spec fn status_line(code: Seq<char>, reason: Option<Seq<char>>) -> Seq<char> {
    match reason {
        Some(reason) => "HTTP/1.1 "@ + code + " "@ + reason + "\r\n"@,
        None => "HTTP/1.1 "@ + code + "\r\n"@,
    }
}

/// Whether a character may stand in a header value: visible ASCII, space or tab.
pub open spec fn is_header_char(c: char) -> bool {
    (' ' <= c && c <= '~') || c == '\t'
}

/// Whether a text may stand as a header value.
pub open spec fn is_header_text(text: Seq<char>) -> bool {
    forall|i: int| 0 <= i < text.len() ==> is_header_char(#[trigger] text[i])
}

/// Whether a character is an ASCII letter, a digit or a hyphen.
pub open spec fn is_name_char(c: char) -> bool {
    ('a' <= c && c <= 'z') || ('A' <= c && c <= 'Z') || ('0' <= c && c <= '9') || c == '-'
}

/// Whether a text is a plain header name: at most 64 letters, digits and
/// hyphens, and at least one.
pub open spec fn is_plain_name(name: Seq<char>) -> bool {
    &&& 0 < name.len() <= 64
    &&& forall|i: int| 0 <= i < name.len() ==> is_name_char(#[trigger] name[i])
}

/// The lower-case form of an ASCII letter; any other character is left alone.
pub open spec fn ascii_lower(c: char) -> char {
    if 'A' <= c && c <= 'Z' {
        ((c as u8) + 32) as u8 as char
    } else {
        c
    }
}

/// A text with its ASCII letters in lower case.
pub open spec fn lower(text: Seq<char>) -> Seq<char> {
    text.map_values(|c: char| ascii_lower(c))
}

/// The reason phrase of a status code: the phrases of the three codes this
/// server answers with, and for any other code what the `http` crate knows.
pub open spec fn reason_of(status: u16) -> Option<Seq<char>> {
    if status == 101 {
        Some("Switching Protocols"@)
    } else if status == 200 {
        Some("OK"@)
    } else if status == 404 {
        Some("Not Found"@)
    } else {
        http_canonical_reason(status)
    }
}

/// The form in which a header name is written: a plain name in lower case, any
/// other name as the `http` crate holds it, if it takes the name at all.
pub open spec fn name_of(name: Seq<char>) -> Option<Seq<char>> {
    if is_plain_name(name) {
        Some(lower(name))
    } else {
        http_header_name(name)
    }
}

/// A header value as it is written, or `None` where it holds a character that
/// may not stand in a header value.
pub open spec fn value_of(value: Seq<char>) -> Option<Seq<char>> {
    if is_header_text(value) {
        Some(value)
    } else {
        None
    }
}

/// The headers as they are written, or `None` where a name or a value is
/// refused.
pub open spec fn normal_headers(headers: Seq<(Seq<char>, Seq<char>)>) -> Option<
    Seq<(Seq<char>, Seq<char>)>,
>
    decreases headers.len(),
{
    if headers.len() == 0 {
        Some(Seq::empty())
    } else {
        match (
            normal_headers(headers.drop_last()),
            name_of(headers.last().0),
            value_of(headers.last().1),
        ) {
            (Some(rest), Some(name), Some(value)) => Some(rest.push((name, value))),
            _ => None,
        }
    }
}

/// The head of a response: status line, header lines, empty line. `None` where
/// the status is no three-digit code or a header is refused.
pub open spec fn response_head(status: u16, headers: Seq<(Seq<char>, Seq<char>)>) -> Option<
    Seq<char>,
> {
    if !(100 <= status <= 999) {
        None
    } else {
        match normal_headers(headers) {
            Some(headers) => Some(
                status_line(decimal(status as nat), reason_of(status)) + header_lines(headers)
                    + "\r\n"@,
            ),
            None => None,
        }
    }
}

/// The head of one of the server's own responses, as it goes on the wire.
pub open spec fn fixed_head(
    status: u16,
    reason: Seq<char>,
    headers: Seq<(Seq<char>, Seq<char>)>,
) -> Seq<char> {
    status_line(decimal(status as nat), Some(reason)) + header_lines(headers) + "\r\n"@
}

/// The headers with each name in lower case.
pub open spec fn lowered(headers: Seq<(Seq<char>, Seq<char>)>) -> Seq<(Seq<char>, Seq<char>)> {
    headers.map_values(|pair: (Seq<char>, Seq<char>)| (lower(pair.0), pair.1))
}

/// The value of the last header called `name`, if there is one.
pub open spec fn last_header(headers: Seq<HeaderView>, name: Seq<char>) -> Option<Seq<u8>>
    decreases headers.len(),
{
    if headers.len() == 0 {
        None
    } else if headers.last().name == name {
        Some(headers.last().value)
    } else {
        last_header(headers.drop_last(), name)
    }
}

/// The value that answers a WebSocket key: the base64 text of the SHA-1 digest
/// of the key followed by the protocol's GUID.
pub open spec fn accept_key(key: Seq<u8>) -> Seq<char> {
    base64_standard(sha1(key + encode_utf8(websocket_guid())))
}

/// The answer to `GET /core.wasm`: head and asset.
pub open spec fn core_wasm_response(core_wasm: Seq<u8>) -> Seq<u8> {
    encode_utf8(
        fixed_head(
            200,
            "OK"@,
            seq![
                ("content-type"@, "application/wasm"@),
                ("content-length"@, decimal(core_wasm.len())),
            ],
        ),
    ) + core_wasm
}

/// The answer that upgrades a connection to a WebSocket.
pub open spec fn upgrade_response(key: Seq<u8>) -> Seq<u8> {
    encode_utf8(
        fixed_head(
            101,
            "Switching Protocols"@,
            seq![
                ("upgrade"@, "websocket"@),
                ("connection"@, "Upgrade"@),
                ("sec-websocket-accept"@, accept_key(key)),
            ],
        ),
    )
}

/// The answer to every other request: 404 and a short text.
pub open spec fn not_found_response() -> Seq<u8> {
    encode_utf8(
        fixed_head(
            404,
            "Not Found"@,
            seq![
                ("content-type"@, "text/plain"@),
                ("content-length"@, decimal(encode_utf8("Not Found"@).len())),
            ],
        ),
    ) + encode_utf8("Not Found"@)
}

/// What the multiplexer does with a parsed request.
pub open spec fn route_of(core_wasm: Seq<u8>, parsed: ParsedView) -> RouteView {
    match parsed {
        ParsedView::Partial => RouteView::ReadMore,
        ParsedView::Invalid => RouteView::Reject,
        ParsedView::Complete(request) => {
            if request.method.is_none() || request.path.is_none() {
                RouteView::Reject
            } else if request.method.unwrap() == "GET"@ && request.path.unwrap() == "/core.wasm"@ {
                RouteView::Respond(core_wasm_response(core_wasm))
            } else if request.method.unwrap() == "GET"@ && request.path.unwrap() == "/socket"@ {
                let key = last_header(request.headers, "Sec-WebSocket-Key"@);
                if last_header(request.headers, "Sec-WebSocket-Version"@) != Some(
                    encode_utf8("13"@),
                ) || key.is_none() {
                    RouteView::Reject
                } else {
                    RouteView::Upgrade(upgrade_response(key.unwrap()))
                }
            } else {
                RouteView::Respond(not_found_response())
            }
        },
    }
}

/// What the multiplexer does after a read that added `read` bytes, or failed
/// (`None`): nothing is answered after a failed read, and nothing more is
/// awaited once the input has ended.
pub open spec fn route_after_read(
    core_wasm: Seq<u8>,
    parsed: ParsedView,
    read: Option<usize>,
) -> RouteView {
    match read {
        None => RouteView::Reject,
        Some(count) => if count == 0 && route_of(core_wasm, parsed) is ReadMore {
            RouteView::Reject
        } else {
            route_of(core_wasm, parsed)
        },
    }
}

/// Parses the head of a request with `httparse::Request::parse`, with room for
/// 64 headers.
///
/// Trusted: the result is what the crate makes of exactly these bytes; its
/// method, path and headers are handed over unchanged, and every parse error
/// becomes `Invalid`.
#[verifier::external_body]
fn parse_request(bytes: &[u8]) -> (parsed: Parsed)
    ensures
        parsed@ == http_request(bytes@),
{
    let mut headers = [httparse::EMPTY_HEADER;64];
    let mut request = httparse::Request::new(&mut headers);
    match request.parse(bytes) {
        Ok(httparse::Status::Complete(_)) => Parsed::Complete(
            Request {
                method: request.method.map(str::to_owned),
                path: request.path.map(str::to_owned),
                headers: request.headers.iter().map(
                    |header| Header { name: header.name.to_owned(), value: header.value.to_vec() },
                ).collect(),
            },
        ),
        Ok(httparse::Status::Partial) => Parsed::Partial,
        Err(_) => Parsed::Invalid,
    }
}

/// The reason phrase of a status code, from
/// `http::StatusCode::canonical_reason`.
///
/// Trusted: the result is the crate's phrase for exactly this code; for 101,
/// 200 and 404 the crate's phrases are `Switching Protocols`, `OK` and
/// `Not Found`.
#[verifier::external_body]
fn canonical_reason(status: u16) -> (reason: Option<String>)
    ensures
        option_text(reason) == reason_of(status),
        option_text(reason) == http_canonical_reason(status),
{
    http::StatusCode::from_u16(status).ok().and_then(|code| code.canonical_reason()).map(
        str::to_owned,
    )
}

/// A header name as `http::HeaderName` holds it.
///
/// Trusted: the result is the crate's form of exactly this name, `None` where
/// the crate refuses it; the crate takes every name of at most 64 letters,
/// digits and hyphens and holds it with its letters in lower case.
#[verifier::external_body]
fn header_name(name: &str) -> (normal: Option<String>)
    ensures
        option_text(normal) == name_of(name@),
        option_text(normal) == http_header_name(name@),
{
    http::HeaderName::try_from(name).ok().map(|name| name.as_str().to_owned())
}

/// A header value as it comes back from `http::HeaderValue`: made with
/// `try_from`, read with `to_str`.
///
/// Trusted: the crate hands a value back unchanged if each of its characters is
/// visible ASCII, a space or a tab, and refuses it otherwise.
#[verifier::external_body]
fn header_value(value: &str) -> (checked: Option<String>)
    ensures
        option_text(checked) == value_of(value@),
{
    http::HeaderValue::try_from(value).ok().and_then(
        |value| value.to_str().ok().map(str::to_owned),
    )
}

/// The SHA-1 digest of `data`, computed by the `sha1` crate.
///
/// Trusted: the result is the crate's digest of exactly these bytes.
#[verifier::external_body]
fn sha1_digest(data: &[u8]) -> (digest: Vec<u8>)
    ensures
        digest@ == sha1(data@),
{
    let mut hasher = sha1::Sha1::new();
    hasher.update(data);
    hasher.finalize().to_vec()
}

/// The base64 text of `data`, written by the `base64` crate's standard engine.
///
/// Trusted: the result is the crate's encoding of exactly these bytes, and it
/// is made of letters, digits, `+`, `/` and `=`.
#[verifier::external_body]
fn base64_encode(data: &[u8]) -> (text: String)
    ensures
        text@ == base64_standard(data@),
        forall|i: int| 0 <= i < text@.len() ==> is_base64_char(#[trigger] text@[i]),
{
    base64::prelude::BASE64_STANDARD.encode(data)
}

fn append_bytes(target: &mut Vec<u8>, bytes: &[u8])
    ensures
        final(target)@ == old(target)@ + bytes@,
{
    let mut i: usize = 0;
    while i < bytes.len()
        invariant
            i <= bytes.len(),
            target@ == old(target)@ + bytes@.take(i as int),
        decreases bytes.len() - i,
    {
        target.push(bytes[i]);
        assert(bytes@.take(i as int + 1) =~= bytes@.take(i as int).push(bytes@[i as int]));
        i += 1;
    }
    assert(bytes@.take(bytes.len() as int) =~= bytes@);
}

/// Writes the head of a response: the status line with the given code and
/// reason, one line for each header, and the empty line that ends the head.
pub fn format_head(code: &str, reason: Option<String>, headers: Vec<(String, String)>) -> (head:
    String)
    ensures
        head@ == status_line(code@, option_text(reason)) + header_lines(pair_views(headers@))
            + "\r\n"@,
{
    let mut head = "HTTP/1.1 ".to_owned();
    head.append(code);
    match reason {
        Some(reason) => {
            head.append(" ");
            head.append(reason.as_str());
        },
        None => {},
    }
    head.append("\r\n");
    assert(head@ =~= status_line(code@, option_text(reason)));
    let ghost line = head@;
    let ghost pairs = pair_views(headers@);
    let mut i: usize = 0;
    while i < headers.len()
        invariant
            i <= headers.len(),
            pairs == pair_views(headers@),
            head@ == line + header_lines(pairs.take(i as int)),
        decreases headers.len() - i,
    {
        let ghost lines = header_lines(pairs.take(i as int));
        proof {
            assert(pairs.take(i as int + 1).drop_last() =~= pairs.take(i as int));
            assert(pairs.take(i as int + 1).last() == pairs[i as int]);
        }
        head.append(headers[i].0.as_str());
        head.append(": ");
        head.append(headers[i].1.as_str());
        head.append("\r\n");
        assert(head@ =~= line + header_lines(pairs.take(i as int + 1)));
        i += 1;
    }
    assert(pairs.take(headers.len() as int) =~= pairs);
    head.append("\r\n");
    head
}

fn digit_text(d: usize) -> (text: &'static str)
    requires
        d < 10,
    ensures
        text@ == seq![digit(d as nat)],
{
    proof {
        reveal_strlit("0");
        reveal_strlit("1");
        reveal_strlit("2");
        reveal_strlit("3");
        reveal_strlit("4");
        reveal_strlit("5");
        reveal_strlit("6");
        reveal_strlit("7");
        reveal_strlit("8");
        reveal_strlit("9");
    }
    let text = if d == 0 {
        "0"
    } else if d == 1 {
        "1"
    } else if d == 2 {
        "2"
    } else if d == 3 {
        "3"
    } else if d == 4 {
        "4"
    } else if d == 5 {
        "5"
    } else if d == 6 {
        "6"
    } else if d == 7 {
        "7"
    } else if d == 8 {
        "8"
    } else {
        "9"
    };
    assert(text@ =~= seq![digit(d as nat)]);
    text
}

/// Writes a number in decimal.
pub fn decimal_text(n: usize) -> (text: String)
    ensures
        text@ == decimal(n as nat),
    decreases n,
{
    if n < 10 {
        digit_text(n).to_owned()
    } else {
        let mut text = decimal_text(n / 10);
        text.append(digit_text(n % 10));
        text
    }
}

/// The three digits of a status code; `None` for a number that is no status
/// code, which is one below 100 or above 999.
pub fn status_text(status: u16) -> (text: Option<String>)
    ensures
        match text {
            Some(text) => 100 <= status <= 999 && text@ == decimal(status as nat),
            None => !(100 <= status <= 999),
        },
{
    if 100 <= status && status <= 999 {
        Some(decimal_text(status as usize))
    } else {
        None
    }
}

/// The head of a response with the given status and headers, ready for the
/// wire: the reason phrase, the header names and the header values are written
/// as the `http` crate holds them. `None` where the status is no status code or
/// the crate refuses a header.
pub fn http_head(status: u16, headers: Vec<(String, String)>) -> (head: Option<String>)
    ensures
        option_text(head) == response_head(status, pair_views(headers@)),
{
    let code = match status_text(status) {
        Some(code) => code,
        None => {
            return None;
        },
    };
    let ghost pairs = pair_views(headers@);
    let mut normal: Vec<(String, String)> = Vec::new();
    for header in iter: headers
        invariant
            iter.seq() == headers@,
            pairs == pair_views(headers@),
            normal_headers(pairs.take(iter.index() as int)) == Some(pair_views(normal@)),
    {
        let ghost seen = iter.index() as int;
        let ghost before = pair_views(normal@);
        proof {
            assert(pairs.take(seen + 1).drop_last() =~= pairs.take(seen));
            assert(pairs.take(seen + 1).last() == (header.0@, header.1@));
        }
        let name = header_name(header.0.as_str());
        let value = header_value(header.1.as_str());
        match (name, value) {
            (Some(name), Some(value)) => {
                normal.push((name, value));
                assert(pair_views(normal@) =~= before.push((name@, value@)));
            },
            _ => {
                proof {
                    lemma_normal_headers_prefix(pairs, seen + 1);
                }
                return None;
            },
        }
    }
    assert(pairs.take(headers.len() as int) =~= pairs);
    Some(format_head(code.as_str(), canonical_reason(status), normal))
}

/// The decimal text of a number is made of digits, which may stand in a header
/// value.
pub proof fn lemma_decimal_is_header_text(n: nat)
    ensures
        is_header_text(decimal(n)),
    decreases n,
{
    if n >= 10 {
        lemma_decimal_is_header_text(n / 10);
    }
}

/// Headers with plain names and acceptable values are written as they are, with
/// their names in lower case.
pub proof fn lemma_plain_headers_are_lowered(headers: Seq<(Seq<char>, Seq<char>)>)
    requires
        forall|i: int|
            0 <= i < headers.len() ==> is_plain_name((#[trigger] headers[i]).0) && is_header_text(
                headers[i].1,
            ),
    ensures
        normal_headers(headers) == Some(lowered(headers)),
    decreases headers.len(),
{
    if headers.len() > 0 {
        lemma_plain_headers_are_lowered(headers.drop_last());
        assert(headers.last() == headers[headers.len() - 1]);
        assert(lowered(headers) =~= lowered(headers.drop_last()).push(
            (lower(headers.last().0), headers.last().1),
        ));
    } else {
        assert(lowered(headers) =~= Seq::empty());
    }
}

/// Where a header among the first is refused, the whole list is refused.
pub proof fn lemma_normal_headers_prefix(headers: Seq<(Seq<char>, Seq<char>)>, n: int)
    requires
        0 <= n <= headers.len(),
        normal_headers(headers.take(n)).is_none(),
    ensures
        normal_headers(headers).is_none(),
    decreases headers.len(),
{
    if n < headers.len() {
        assert(headers.drop_last().take(n) =~= headers.take(n));
        lemma_normal_headers_prefix(headers.drop_last(), n);
    } else {
        assert(headers.take(n) =~= headers);
    }
}

/// The value of the `Sec-WebSocket-Accept` header that answers `key`.
pub fn derive_accept_key(key: &[u8]) -> (accept: String)
    ensures
        accept@ == accept_key(key@),
        is_header_text(accept@),
{
    let mut input: Vec<u8> = Vec::new();
    append_bytes(&mut input, key);
    append_bytes(&mut input, "258EAFA5-E914-47DA-95CA-C5AB0DC85B11".as_bytes());
    assert(input@ =~= key@ + encode_utf8(websocket_guid()));
    let digest = sha1_digest(input.as_slice());
    base64_encode(digest.as_slice())
}

fn bytes_equal(a: &[u8], b: &[u8]) -> (same: bool)
    ensures
        same == (a@ == b@),
{
    if a.len() != b.len() {
        return false;
    }
    let mut i: usize = 0;
    while i < a.len()
        invariant
            i <= a.len(),
            a.len() == b.len(),
            forall|j: int| 0 <= j < i ==> a@[j] == b@[j],
        decreases a.len() - i,
    {
        if a[i] != b[i] {
            return false;
        }
        i += 1;
    }
    assert(a@ =~= b@);
    true
}

fn find_header(headers: &Vec<Header>, name: &str) -> (found: Option<usize>)
    ensures
        match found {
            Some(i) => i < headers.len() && last_header(
                headers@.map_values(|header: Header| header@),
                name@,
            ) == Some(headers[i as int].value@),
            None => last_header(headers@.map_values(|header: Header| header@), name@).is_none(),
        },
{
    let ghost views = headers@.map_values(|header: Header| header@);
    let mut found: Option<usize> = None;
    let mut i: usize = 0;
    while i < headers.len()
        invariant
            i <= headers.len(),
            views == headers@.map_values(|header: Header| header@),
            match found {
                Some(k) => k < i && last_header(views.take(i as int), name@) == Some(
                    headers[k as int].value@,
                ),
                None => last_header(views.take(i as int), name@).is_none(),
            },
        decreases headers.len() - i,
    {
        assert(views.take(i as int + 1).drop_last() =~= views.take(i as int));
        assert(views.take(i as int + 1).last() == headers[i as int]@);
        if same_text(headers[i].name.as_str(), name) {
            found = Some(i);
        }
        i += 1;
    }
    assert(views.take(headers.len() as int) =~= views);
    found
}

fn header_pair(name: &str, value: String) -> (pair: (String, String))
    ensures
        pair.0@ == name@,
        pair.1@ == value@,
{
    (name.to_owned(), value)
}

fn fixed_response(status: u16, headers: Vec<(String, String)>) -> (head: String)
    requires
        status == 101 || status == 200 || status == 404,
        forall|i: int|
            0 <= i < headers.len() ==> is_plain_name((#[trigger] headers[i]).0@) && is_header_text(
                headers[i].1@,
            ),
    ensures
        head@ == fixed_head(status, reason_of(status).unwrap(), lowered(pair_views(headers@))),
{
    proof {
        lemma_plain_headers_are_lowered(pair_views(headers@));
    }
    let head = http_head(status, headers);
    head.unwrap()
}

/// The answer to a request for no known route: 404 and a short text.
pub fn respond_404() -> (response: Vec<u8>)
    ensures
        response@ == not_found_response(),
{
    let body = "Not Found".as_bytes();
    let mut headers: Vec<(String, String)> = Vec::new();
    headers.push(header_pair("Content-Type", "text/plain".to_owned()));
    headers.push(header_pair("Content-Length", decimal_text(body.len())));
    proof {
        reveal_strlit("Content-Type");
        reveal_strlit("content-type");
        reveal_strlit("text/plain");
        reveal_strlit("Content-Length");
        reveal_strlit("content-length");
        lemma_decimal_is_header_text(body.len() as nat);
        assert(lower("Content-Type"@) =~= "content-type"@);
        assert(lower("Content-Length"@) =~= "content-length"@);
        assert(pair_views(headers@) =~= seq![
            ("Content-Type"@, "text/plain"@),
            ("Content-Length"@, decimal(encode_utf8("Not Found"@).len())),
        ]);
        assert(lowered(pair_views(headers@)) =~= seq![
            ("content-type"@, "text/plain"@),
            ("content-length"@, decimal(encode_utf8("Not Found"@).len())),
        ]);
    }
    let head = fixed_response(404, headers);
    let mut bytes = head.as_str().as_bytes_vec();
    append_bytes(&mut bytes, body);
    bytes
}

/// The answer that upgrades a connection to a WebSocket for the client's `key`.
pub fn accept_websocket(key: &[u8]) -> (response: Vec<u8>)
    ensures
        response@ == upgrade_response(key@),
{
    let mut headers: Vec<(String, String)> = Vec::new();
    headers.push(header_pair("Upgrade", "websocket".to_owned()));
    headers.push(header_pair("Connection", "Upgrade".to_owned()));
    headers.push(header_pair("Sec-WebSocket-Accept", derive_accept_key(key)));
    proof {
        reveal_strlit("Upgrade");
        reveal_strlit("upgrade");
        reveal_strlit("websocket");
        reveal_strlit("Connection");
        reveal_strlit("connection");
        reveal_strlit("Sec-WebSocket-Accept");
        reveal_strlit("sec-websocket-accept");
        assert(lower("Upgrade"@) =~= "upgrade"@);
        assert(lower("Connection"@) =~= "connection"@);
        assert(lower("Sec-WebSocket-Accept"@) =~= "sec-websocket-accept"@);
        assert(pair_views(headers@) =~= seq![
            ("Upgrade"@, "websocket"@),
            ("Connection"@, "Upgrade"@),
            ("Sec-WebSocket-Accept"@, accept_key(key@)),
        ]);
        assert(lowered(pair_views(headers@)) =~= seq![
            ("upgrade"@, "websocket"@),
            ("connection"@, "Upgrade"@),
            ("sec-websocket-accept"@, accept_key(key@)),
        ]);
    }
    let head = fixed_response(101, headers);
    head.as_str().as_bytes_vec()
}

/// The HTTP front of one WebSocket port. It holds the static asset it serves.
pub struct HttpMultiplexer {
    core_wasm: &'static [u8],
}

impl HttpMultiplexer {
    /// The asset served at `/core.wasm`.
    pub closed spec fn asset(&self) -> Seq<u8> {
        self.core_wasm@
    }

    /// A multiplexer that serves `core_wasm` at `/core.wasm`.
    pub fn new(core_wasm: &'static [u8]) -> (multiplexer: Self)
        ensures
            multiplexer.asset() == core_wasm@,
    {
        HttpMultiplexer { core_wasm }
    }

    /// The answer to `GET /core.wasm`: head and asset.
    pub fn respond_core_wasm(&self) -> (response: Vec<u8>)
        ensures
            response@ == core_wasm_response(self.asset()),
    {
        let mut headers: Vec<(String, String)> = Vec::new();
        headers.push(header_pair("Content-Type", "application/wasm".to_owned()));
        headers.push(header_pair("Content-Length", decimal_text(self.core_wasm.len())));
        proof {
            reveal_strlit("Content-Type");
            reveal_strlit("content-type");
            reveal_strlit("application/wasm");
            reveal_strlit("Content-Length");
            reveal_strlit("content-length");
            lemma_decimal_is_header_text(self.asset().len());
            assert(lower("Content-Type"@) =~= "content-type"@);
            assert(lower("Content-Length"@) =~= "content-length"@);
            assert(pair_views(headers@) =~= seq![
                ("Content-Type"@, "application/wasm"@),
                ("Content-Length"@, decimal(self.asset().len())),
            ]);
            assert(lowered(pair_views(headers@)) =~= seq![
                ("content-type"@, "application/wasm"@),
                ("content-length"@, decimal(self.asset().len())),
            ]);
        }
        let head = fixed_response(200, headers);
        let mut bytes = head.as_str().as_bytes_vec();
        append_bytes(&mut bytes, self.core_wasm);
        bytes
    }

    /// Decides what to do with a parsed request.
    pub fn route(&self, parsed: Parsed) -> (route: Route)
        ensures
            route@ == route_of(self.asset(), parsed@),
    {
        let request = match parsed {
            Parsed::Partial => {
                return Route::ReadMore;
            },
            Parsed::Invalid => {
                return Route::Reject;
            },
            Parsed::Complete(request) => request,
        };
        let method = match &request.method {
            Some(method) => method,
            None => {
                return Route::Reject;
            },
        };
        let path = match &request.path {
            Some(path) => path,
            None => {
                return Route::Reject;
            },
        };
        let get = same_text(method.as_str(), "GET");
        if get && same_text(path.as_str(), "/core.wasm") {
            Route::Respond(self.respond_core_wasm())
        } else if get && same_text(path.as_str(), "/socket") {
            let version = find_header(&request.headers, "Sec-WebSocket-Version");
            let key = find_header(&request.headers, "Sec-WebSocket-Key");
            let supported = match version {
                Some(i) => bytes_equal(request.headers[i].value.as_slice(), "13".as_bytes()),
                None => false,
            };
            if !supported {
                return Route::Reject;
            }
            match key {
                Some(i) => Route::Upgrade(accept_websocket(request.headers[i].value.as_slice())),
                None => Route::Reject,
            }
        } else {
            Route::Respond(respond_404())
        }
    }

    /// Decides what to do with a connection after a read: `read` is the number
    /// of bytes the read added to `bytes`, or `None` where it failed. A failed
    /// read ends the connection, and so does the end of the input before the
    /// request is complete.
    pub fn handle_read(&self, bytes: &[u8], read: Option<usize>) -> (route: Route)
        ensures
            route@ == route_after_read(self.asset(), http_request(bytes@), read),
    {
        match read {
            None => Route::Reject,
            Some(count) => {
                let route = self.handle(bytes);
                if count == 0 {
                    match route {
                        Route::ReadMore => Route::Reject,
                        route => route,
                    }
                } else {
                    route
                }
            },
        }
    }

    /// Looks at the bytes received so far on a fresh connection and decides
    /// what to do with it.
    pub fn handle(&self, bytes: &[u8]) -> (route: Route)
        ensures
            route@ == route_of(self.asset(), http_request(bytes@)),
    {
        self.route(parse_request(bytes))
    }
}

} // verus!
