//! HTTP requests that programs make: their checks, their parts, and their answers.

use crate::runtime::bytes;
use crate::runtime::bytes::{byte_len, bytes_to_string};
use crate::runtime::memory;
use crate::runtime::memory::{checked_ptr_len, has_valid_optional_region, pack_ptr_len};
use crate::runtime::process;
use crate::runtime::process::split_text;
use crate::runtime::strings;
use crate::runtime::strings::trim;
use crate::text;
use crate::text::{
    Text, cat2, cat3, chars_of, owned, skip_chars, split_once, starts_with, str_eq, u64_to_text,
};
use vstd::prelude::*;
use vstd::utf8::encode_utf8;

verus! {

// ---------------------------------------------------------------------------
// Requests out of memory
// ---------------------------------------------------------------------------

/// Whether the regions of a request lie in memory. Headers and body may be empty.
pub open spec fn request_regions_valid(
    method: (i32, i32),
    url: (i32, i32),
    headers: (i32, i32),
    body: (i32, i32),
    pages: Option<usize>,
) -> bool {
    &&& memory::region(method.0, method.1 as int, pages) is Some
    &&& memory::region(url.0, url.1 as int, pages) is Some
    &&& memory::optional_region(headers.0, headers.1, pages) is Some
    &&& memory::optional_region(body.0, body.1, pages) is Some
}

/// Whether a request can be handed to the host: each part is an address and a length.
pub fn check_request(
    method: (i32, i32),
    url: (i32, i32),
    headers: (i32, i32),
    body: (i32, i32),
    pages: Option<usize>,
) -> (r: bool)
    ensures
        r == request_regions_valid(method, url, headers, body, pages),
{
    checked_ptr_len(method.0, method.1, pages).is_some() && checked_ptr_len(
        url.0,
        url.1,
        pages,
    ).is_some() && has_valid_optional_region(headers.0, headers.1, pages)
        && has_valid_optional_region(body.0, body.1, pages)
}

/// The word that a program gets for a text of the host: zero where the text is not valid.
pub fn host_result(ptr: i32, len: i32, pages: Option<usize>) -> (r: i64)
    ensures
        r == (if memory::optional_region(ptr, len, pages) is Some {
            memory::packed(ptr, len)
        } else {
            0
        }),
{
    if has_valid_optional_region(ptr, len, pages) {
        pack_ptr_len(ptr, len)
    } else {
        0
    }
}

/// Whether an answer can be handed to the host.
pub fn check_response(headers: (i32, i32), body: (i32, i32), pages: Option<usize>) -> (r: bool)
    ensures
        r == (memory::optional_region(headers.0, headers.1, pages) is Some && memory::optional_region(
            body.0,
            body.1,
            pages,
        ) is Some),
{
    has_valid_optional_region(headers.0, headers.1, pages) && has_valid_optional_region(
        body.0,
        body.1,
        pages,
    )
}

// ---------------------------------------------------------------------------
// Limits
// ---------------------------------------------------------------------------

/// The number of bytes that a URL may have.
pub const MAX_HTTP_URL_BYTES: usize = 8192;

/// The number of bytes that headers may have.
pub const MAX_HTTP_HEADERS_BYTES: usize = 65536;

/// The number of bytes that a body may have.
pub const MAX_HTTP_BODY_BYTES: usize = 1048576;

/// The number of bytes that an answer may have.
pub const MAX_HTTP_RESPONSE_BYTES: usize = 1048576;

/// What is wrong with the sizes of a request.
pub open spec fn limit_error(url: Text, headers: Text, body: Text) -> Option<Text> {
    if encode_utf8(url).len() > MAX_HTTP_URL_BYTES {
        Some("url exceeds 8192 bytes"@)
    } else if encode_utf8(headers).len() > MAX_HTTP_HEADERS_BYTES {
        Some("headers exceed 65536 bytes"@)
    } else if encode_utf8(body).len() > MAX_HTTP_BODY_BYTES {
        Some("body exceeds 1048576 bytes"@)
    } else {
        None
    }
}

/// Checks the sizes of a request.
pub fn validate_bridge_limits(url: &str, headers: &str, body: &str) -> (r: Result<(), String>)
    ensures
        match r {
            Ok(_) => limit_error(url@, headers@, body@) is None,
            Err(e) => limit_error(url@, headers@, body@) == Some(e@),
        },
{
    if byte_len(url) > MAX_HTTP_URL_BYTES {
        return Err(owned("url exceeds 8192 bytes"));
    }
    if byte_len(headers) > MAX_HTTP_HEADERS_BYTES {
        return Err(owned("headers exceed 65536 bytes"));
    }
    if byte_len(body) > MAX_HTTP_BODY_BYTES {
        return Err(owned("body exceeds 1048576 bytes"));
    }
    Ok(())
}

// ---------------------------------------------------------------------------
// Methods
// ---------------------------------------------------------------------------

/// A request method.
#[derive(Debug, PartialEq)]
pub enum HttpMethod {
    Get,
    Head,
    Post,
    Put,
    Delete,
    Connect,
    Options,
    Trace,
    Patch,
    Other(String),
}

/// The model of a request method.
pub enum HttpMethodV {
    Get,
    Head,
    Post,
    Put,
    Delete,
    Connect,
    Options,
    Trace,
    Patch,
    Other(Text),
}

impl HttpMethod {
    /// The model of this method.
    pub open spec fn view(&self) -> HttpMethodV {
        match self {
            HttpMethod::Get => HttpMethodV::Get,
            HttpMethod::Head => HttpMethodV::Head,
            HttpMethod::Post => HttpMethodV::Post,
            HttpMethod::Put => HttpMethodV::Put,
            HttpMethod::Delete => HttpMethodV::Delete,
            HttpMethod::Connect => HttpMethodV::Connect,
            HttpMethod::Options => HttpMethodV::Options,
            HttpMethod::Trace => HttpMethodV::Trace,
            HttpMethod::Patch => HttpMethodV::Patch,
            HttpMethod::Other(s) => HttpMethodV::Other(s@),
        }
    }
}

/// A character with its case raised, if it is a letter of ASCII.
pub open spec fn ascii_upper(c: char) -> char {
    if 'a' as int <= c as int <= 'z' as int {
        (c as int - 32) as char
    } else {
        c
    }
}

/// A text with the letters of ASCII raised.
pub open spec fn ascii_upper_text(s: Text) -> Text {
    s.map_values(|c: char| ascii_upper(c))
}

fn raise_char(c: char) -> (r: char)
    ensures
        r == ascii_upper(c),
{
    if c >= 'a' && c <= 'z' {
        let b: u8 = (c as u32 - 32) as u8;
        b as char
    } else {
        c
    }
}

fn raise_text(s: &str) -> (r: String)
    ensures
        r@ == ascii_upper_text(s@),
{
    let cs = chars_of(s);
    let mut out = String::new();
    let mut i: usize = 0;
    while i < cs.len()
        invariant
            i <= cs.len(),
            cs@ == s@,
            out@.len() == i,
            forall|j: int| 0 <= j < i ==> #[trigger] out@[j] == ascii_upper(s@[j]),
        decreases cs.len() - i,
    {
        out.push(raise_char(cs[i]));
        i = i + 1;
    }
    assert(out@ =~= ascii_upper_text(s@));
    out
}

/// The method that a word names, in any case.
pub open spec fn method_of_word(word: Text) -> HttpMethodV {
    let w = ascii_upper_text(strings::trimmed(word));
    if w == "GET"@ {
        HttpMethodV::Get
    } else if w == "HEAD"@ {
        HttpMethodV::Head
    } else if w == "POST"@ {
        HttpMethodV::Post
    } else if w == "PUT"@ {
        HttpMethodV::Put
    } else if w == "DELETE"@ {
        HttpMethodV::Delete
    } else if w == "CONNECT"@ {
        HttpMethodV::Connect
    } else if w == "OPTIONS"@ {
        HttpMethodV::Options
    } else if w == "TRACE"@ {
        HttpMethodV::Trace
    } else if w == "PATCH"@ {
        HttpMethodV::Patch
    } else {
        HttpMethodV::Other(w)
    }
}

/// Reads a request method.
pub fn parse_method(method: &str) -> (r: HttpMethod)
    ensures
        r@ == method_of_word(method@),
{
    let t = trim(method);
    let w = raise_text(t.as_str());
    if str_eq(w.as_str(), "GET") {
        HttpMethod::Get
    } else if str_eq(w.as_str(), "HEAD") {
        HttpMethod::Head
    } else if str_eq(w.as_str(), "POST") {
        HttpMethod::Post
    } else if str_eq(w.as_str(), "PUT") {
        HttpMethod::Put
    } else if str_eq(w.as_str(), "DELETE") {
        HttpMethod::Delete
    } else if str_eq(w.as_str(), "CONNECT") {
        HttpMethod::Connect
    } else if str_eq(w.as_str(), "OPTIONS") {
        HttpMethod::Options
    } else if str_eq(w.as_str(), "TRACE") {
        HttpMethod::Trace
    } else if str_eq(w.as_str(), "PATCH") {
        HttpMethod::Patch
    } else {
        HttpMethod::Other(w)
    }
}

// ---------------------------------------------------------------------------
// Addresses
// ---------------------------------------------------------------------------

/// The scheme of an address.
#[derive(Debug, Clone, Copy, PartialEq, Eq, Structural)]
pub enum HttpScheme {
    Http,
    Https,
}

/// The parts of an address.
pub struct UrlV {
    pub scheme: HttpScheme,
    pub authority: Text,
    pub path: Text,
}

/// The scheme of an address, and what follows it.
pub open spec fn scheme_split(t: Text) -> Option<(HttpScheme, Text)> {
    if text::begins_with(t, "https://"@) {
        Some((HttpScheme::Https, t.skip("https://"@.len() as int)))
    } else if text::begins_with(t, "http://"@) {
        Some((HttpScheme::Http, t.skip("http://"@.len() as int)))
    } else {
        None
    }
}

/// The parts of an address, or what is wrong with it. The path begins at the first slash.
pub open spec fn url_parts(url: Text) -> Result<UrlV, Text> {
    match scheme_split(strings::trimmed(url)) {
        None => Err("unsupported URL scheme"@),
        Some((scheme, rest)) => {
            let (authority, path) = match text::split_at_char(rest, '/') {
                Some((a, p)) => (a, "/"@ + p),
                None => (rest, "/"@),
            };
            if authority.len() == 0 {
                Err("missing authority"@)
            } else {
                Ok(UrlV { scheme, authority, path })
            }
        },
    }
}

fn split_scheme(t: &str) -> (r: Option<(HttpScheme, String)>)
    ensures
        match r {
            Some((scheme, rest)) => scheme_split(t@) == Some((scheme, rest@)),
            None => scheme_split(t@) is None,
        },
{
    if starts_with(t, "https://") {
        proof {
            reveal_strlit("https://");
        }
        Some((HttpScheme::Https, skip_chars(t, 8)))
    } else if starts_with(t, "http://") {
        proof {
            reveal_strlit("http://");
        }
        Some((HttpScheme::Http, skip_chars(t, 7)))
    } else {
        None
    }
}

/// Reads an address: its scheme, its authority and its path.
pub fn parse_url(url: &str) -> (r: Result<(HttpScheme, String, String), String>)
    ensures
        match r {
            Ok((scheme, authority, path)) => url_parts(url@) == Ok::<UrlV, Text>(
                UrlV { scheme, authority: authority@, path: path@ },
            ),
            Err(e) => url_parts(url@) == Err::<UrlV, Text>(e@),
        },
{
    let t = trim(url);
    let (scheme, rest) = match split_scheme(t.as_str()) {
        Some(x) => x,
        None => {
            return Err(owned("unsupported URL scheme"));
        },
    };
    let (authority, path) = match split_once(rest.as_str(), '/') {
        Some((a, p)) => (a, cat2("/", p.as_str())),
        None => (rest, owned("/")),
    };
    if authority.as_str().unicode_len() == 0 {
        return Err(owned("missing authority"));
    }
    Ok((scheme, authority, path))
}

proof fn lemma_split_at_first(s: Text, c: char, k: nat, i: nat)
    requires
        i <= k < s.len(),
        s[k as int] == c,
        forall|j: int| i <= j < k ==> s[j] != c,
    ensures
        text::index_of_char(s, c, i) == k,
    decreases k - i,
{
    if i < k {
        lemma_split_at_first(s, c, k, i + 1);
    }
}

/// An address that is made of a scheme, an authority without a slash, and a path is read back
/// into these parts.
pub proof fn law_url_reads_back(scheme: HttpScheme, authority: Text, rest: Text)
    requires
        authority.len() > 0,
        !authority.contains('/'),
        strings::trimmed(url_text(scheme, authority, rest)) == url_text(scheme, authority, rest),
    ensures
        url_parts(url_text(scheme, authority, rest)) == Ok::<UrlV, Text>(
            UrlV { scheme, authority, path: "/"@ + rest },
        ),
{
    reveal_strlit("https://");
    reveal_strlit("http://");
    reveal_strlit("/");
    let url = url_text(scheme, authority, rest);
    let prefix = scheme_text(scheme);
    let tail = authority + "/"@ + rest;
    assert(url =~= prefix + tail);
    assert(url.take(prefix.len() as int) =~= prefix);
    assert(url.skip(prefix.len() as int) =~= tail);
    if scheme == HttpScheme::Http {
        assert(url[4] == ':');
        if text::begins_with(url, "https://"@) {
            assert(url.take(8)[4] == 's');
        }
    }
    assert forall|j: int| 0 <= j < authority.len() implies tail[j] != '/' by {
        assert(tail[j] == authority[j]);
        assert(authority.contains(authority[j]));
    }
    assert(tail[authority.len() as int] == '/');
    lemma_split_at_first(tail, '/', authority.len(), 0);
    assert(tail.take(authority.len() as int) =~= authority);
    assert(tail.skip(authority.len() as int + 1) =~= rest);
}

/// The scheme as it stands in an address.
pub open spec fn scheme_text(scheme: HttpScheme) -> Text {
    match scheme {
        HttpScheme::Http => "http://"@,
        HttpScheme::Https => "https://"@,
    }
}

/// An address with a path.
pub open spec fn url_text(scheme: HttpScheme, authority: Text, rest: Text) -> Text {
    scheme_text(scheme) + authority + "/"@ + rest
}

// ---------------------------------------------------------------------------
// Headers
// ---------------------------------------------------------------------------

/// The name and the value of a header line; nothing where the line has no name.
pub open spec fn header_of_line(line: Text) -> Option<(Text, Text)> {
    match text::split_at_char(strings::trimmed(line), ':') {
        None => None,
        Some((name, value)) => {
            if strings::trimmed(name).len() == 0 {
                None
            } else {
                Some((strings::trimmed(name), strings::trimmed(value)))
            }
        },
    }
}

/// Whether a header name is that of the host, in any case.
pub open spec fn is_host(name: Text) -> bool {
    ascii_upper_text(name) == "HOST"@
}

/// The headers among the lines from index `i` on, behind those of `acc`.
pub open spec fn headers_from(acc: Seq<(Text, Text)>, lines: Seq<Text>, i: nat) -> Seq<
    (Text, Text),
>
    decreases lines.len() - i,
{
    if i >= lines.len() {
        acc
    } else {
        match header_of_line(lines[i as int]) {
            Some(h) => headers_from(acc.push(h), lines, i + 1),
            None => headers_from(acc, lines, i + 1),
        }
    }
}

/// Whether one of the headers names the host.
pub open spec fn names_host(hs: Seq<(Text, Text)>) -> bool {
    exists|i: int| 0 <= i < hs.len() && is_host((#[trigger] hs[i]).0)
}

/// The headers of a request: those of its lines, and the host where none of them names it.
pub open spec fn request_headers(headers: Text, authority: Text) -> Seq<(Text, Text)> {
    let hs = headers_from(Seq::empty(), process::pieces(headers, '\n'), 0);
    if names_host(hs) {
        hs
    } else {
        hs.push(("Host"@, authority))
    }
}

/// The models of a list of headers.
pub open spec fn headers_view(v: Seq<(String, String)>) -> Seq<(Text, Text)> {
    v.map_values(|h: (String, String)| (h.0@, h.1@))
}

fn parse_header_line(line: &str) -> (r: Option<(String, String)>)
    ensures
        match r {
            Some((n, v)) => header_of_line(line@) == Some((n@, v@)),
            None => header_of_line(line@) is None,
        },
{
    let t = trim(line);
    match split_once(t.as_str(), ':') {
        None => None,
        Some((a, b)) => {
            let name = trim(a.as_str());
            if name.as_str().unicode_len() == 0 {
                None
            } else {
                Some((name, trim(b.as_str())))
            }
        },
    }
}

/// Reads the headers of a request, and adds the host where they do not name it.
pub fn parse_headers(headers: &str, authority: &str) -> (r: Vec<(String, String)>)
    ensures
        headers_view(r@) == request_headers(headers@, authority@),
{
    let lines = split_text(headers, '\n');
    let ghost lv = text::texts(lines@);
    let mut out: Vec<(String, String)> = Vec::new();
    let mut has_host = false;
    let mut i: usize = 0;
    assert(headers_view(out@) =~= Seq::<(Text, Text)>::empty());
    while i < lines.len()
        invariant
            i <= lines.len(),
            lv == text::texts(lines@),
            has_host == names_host(headers_view(out@)),
            headers_from(headers_view(out@), lv, i as nat) == headers_from(Seq::empty(), lv, 0),
        decreases lines.len() - i,
    {
        let ghost before = headers_view(out@);
        assert(lv[i as int] == lines@[i as int]@);
        if let Some((name, value)) = parse_header_line(lines[i].as_str()) {
            let upper = raise_text(name.as_str());
            let host = str_eq(upper.as_str(), "HOST");
            let ghost hv = (name@, value@);
            out.push((name, value));
            proof {
                assert(headers_view(out@) =~= before.push(hv));
                let after = before.push(hv);
                if has_host {
                    let k = choose|k: int| 0 <= k < before.len() && is_host(before[k].0);
                    assert(is_host(after[k].0));
                }
                if host {
                    assert(is_host(after[before.len() as int].0));
                }
                if names_host(after) {
                    let k = choose|k: int| 0 <= k < after.len() && is_host(after[k].0);
                    if k < before.len() {
                        assert(is_host(before[k].0));
                    }
                }
            }
            if host {
                has_host = true;
            }
        }
        i = i + 1;
    }
    if !has_host {
        let ghost before = headers_view(out@);
        out.push((owned("Host"), owned(authority)));
        assert(headers_view(out@) =~= before.push(("Host"@, authority@)));
    }
    out
}

/// The headers of a request always name the host.
pub proof fn law_requests_name_the_host(headers: Text, authority: Text)
    ensures
        names_host(request_headers(headers, authority)),
{
    let hs = headers_from(Seq::empty(), process::pieces(headers, '\n'), 0);
    if !names_host(hs) {
        let all = hs.push(("Host"@, authority));
        reveal_strlit("Host");
        reveal_strlit("HOST");
        assert(ascii_upper_text("Host"@) =~= "HOST"@);
        assert(is_host(all[hs.len() as int].0));
    }
}

// ---------------------------------------------------------------------------
// Whole requests
// ---------------------------------------------------------------------------

/// A request as it is handed to the network.
#[derive(Debug)]
pub struct BridgeRequest {
    pub method: HttpMethod,
    pub scheme: HttpScheme,
    pub authority: String,
    pub path: String,
    pub headers: Vec<(String, String)>,
}

/// The model of a request.
pub struct BridgeRequestV {
    pub method: HttpMethodV,
    pub scheme: HttpScheme,
    pub authority: Text,
    pub path: Text,
    pub headers: Seq<(Text, Text)>,
}

impl BridgeRequest {
    /// The model of this request.
    pub open spec fn view(&self) -> BridgeRequestV {
        BridgeRequestV {
            method: self.method@,
            scheme: self.scheme,
            authority: self.authority@,
            path: self.path@,
            headers: headers_view(self.headers@),
        }
    }
}

/// The request that texts ask for, or why it is refused.
pub open spec fn request_planned(method: Text, url: Text, headers: Text, body: Text) -> Result<
    BridgeRequestV,
    Text,
> {
    match limit_error(url, headers, body) {
        Some(e) => Err(e),
        None => match url_parts(url) {
            Err(e) => Err(e),
            Ok(u) => Ok(
                BridgeRequestV {
                    method: method_of_word(method),
                    scheme: u.scheme,
                    authority: u.authority,
                    path: u.path,
                    headers: request_headers(headers, u.authority),
                },
            ),
        },
    }
}

/// Makes the request that texts ask for.
pub fn plan_request(method: &str, url: &str, headers: &str, body: &str) -> (r: Result<
    BridgeRequest,
    String,
>)
    ensures
        match r {
            Ok(q) => request_planned(method@, url@, headers@, body@) == Ok::<
                BridgeRequestV,
                Text,
            >(q@),
            Err(e) => request_planned(method@, url@, headers@, body@) == Err::<
                BridgeRequestV,
                Text,
            >(e@),
        },
{
    if let Err(e) = validate_bridge_limits(url, headers, body) {
        return Err(e);
    }
    match parse_url(url) {
        Err(e) => Err(e),
        Ok((scheme, authority, path)) => {
            let hs = parse_headers(headers, authority.as_str());
            Ok(
                BridgeRequest {
                    method: parse_method(method),
                    scheme,
                    authority,
                    path,
                    headers: hs,
                },
            )
        },
    }
}

/// Appends a part of an answer, unless the answer gets too long.
pub fn append_chunk(body: &mut String, chunk: &[u8]) -> (r: Result<(), String>)
    ensures
        match r {
            Ok(_) => {
                &&& encode_utf8(old(body)@).len() + chunk@.len() <= MAX_HTTP_RESPONSE_BYTES
                &&& final(body)@ == old(body)@ + bytes::lossy_text(chunk@)
            },
            Err(e) => {
                &&& encode_utf8(old(body)@).len() + chunk@.len() > MAX_HTTP_RESPONSE_BYTES
                &&& e@ == "response exceeds 1048576 bytes"@
                &&& final(body)@ == old(body)@
            },
        },
{
    let have = byte_len(body.as_str());
    let more = chunk.len();
    if have > MAX_HTTP_RESPONSE_BYTES || more > MAX_HTTP_RESPONSE_BYTES - have {
        return Err(owned("response exceeds 1048576 bytes"));
    }
    let text = bytes_to_string(chunk);
    body.append(text.as_str());
    Ok(())
}

/// The text that a program gets for a request: the status and the body, or zero and why it
/// failed.
pub open spec fn response_text(outcome: Result<(u16, Text), Text>) -> Text {
    match outcome {
        Ok((status, body)) => text::decimal(status as nat) + "\n"@ + body,
        Err(why) => "0\nhttp request failed: "@ + why,
    }
}

/// Renders the outcome of a request.
pub fn render_response(outcome: &Result<(u16, String), String>) -> (r: String)
    ensures
        r@ == response_text(
            match *outcome {
                Ok((status, body)) => Ok((status, body@)),
                Err(why) => Err(why@),
            },
        ),
{
    match outcome {
        Ok((status, body)) => {
            let n = u64_to_text(*status as u64);
            cat3(n.as_str(), "\n", body.as_str())
        },
        Err(why) => cat2("0\nhttp request failed: ", why.as_str()),
    }
}

} // verus!
