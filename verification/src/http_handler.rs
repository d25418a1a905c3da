//! The wire codec: raw request text in, structured request out, and a
//! structured response back into wire text.
//!
//! The accepted wire shape is a small subset of HTTP/1.1: a request line
//! `METHOD URI VERSION`, header lines `Name: Value` up to the first blank
//! line, and, for POST requests only, one body line after the blank line.
//! A response is rendered as `HTTP/1.1 <code>`, header lines, a blank line
//! and the JSON-shaped body, with no implicit headers added.

use vstd::prelude::*;

use crate::body::HttpBody;
use crate::errors::NinoverseHttpHandlerError;
use crate::errors::ParsePhase;
use crate::errors::err_info;
use crate::errors::err_phase;
use crate::links::OutputLink;
use crate::text::find_pair;
use crate::text::pair_pos;
use crate::text::is_token_ws;
use crate::text::spec_lines;
use crate::text::spec_tokens_from;
use crate::text::split_char_all;
use crate::text::spec_split_char;
use crate::text::spec_tokens;
use crate::text::spec_trim;
use crate::text::split_crlf;
use crate::text::split_whitespace_tokens;
use crate::text::str_eq;
use crate::text::trim_wire_text;

verus! {

/// The request methods this server understands.
#[derive(Clone, Copy, Debug, PartialEq, Eq, Structural)]
pub enum Method {
    Get,
    Post,
    Put,
    Delete,
    Head,
    Options,
    Patch,
}

/// The protocol versions this server accepts on a request line.
#[derive(Clone, Copy, Debug, PartialEq, Eq, Structural)]
pub enum HttpVersion {
    Http11,
    Http10,
}

/// One parsed request, immutable for the life of its connection.
pub struct Request<B> {
    pub method: Method,
    pub path: String,
    pub version: HttpVersion,
    pub headers: Vec<(String, String)>,
    pub body: B,
}

/// One response, built by a dispatch action and written to the wire once.
pub struct Response<B> {
    pub status: u16,
    pub headers: Vec<(String, String)>,
    pub body: B,
}

/// The wire token of each method.
pub open spec fn method_token(m: Method) -> Seq<char> {
    match m {
        Method::Get => "GET"@,
        Method::Post => "POST"@,
        Method::Put => "PUT"@,
        Method::Delete => "DELETE"@,
        Method::Head => "HEAD"@,
        Method::Options => "OPTIONS"@,
        Method::Patch => "PATCH"@,
    }
}

/// The method a request-line token names, if any.
pub open spec fn method_of_token(t: Seq<char>) -> Option<Method> {
    if t == "GET"@ {
        Some(Method::Get)
    } else if t == "POST"@ {
        Some(Method::Post)
    } else if t == "PUT"@ {
        Some(Method::Put)
    } else if t == "DELETE"@ {
        Some(Method::Delete)
    } else if t == "HEAD"@ {
        Some(Method::Head)
    } else if t == "OPTIONS"@ {
        Some(Method::Options)
    } else if t == "PATCH"@ {
        Some(Method::Patch)
    } else {
        None
    }
}

/// The wire token of each accepted version.
pub open spec fn version_token(v: HttpVersion) -> Seq<char> {
    match v {
        HttpVersion::Http11 => "HTTP/1.1"@,
        HttpVersion::Http10 => "HTTP/1.0"@,
    }
}

/// The version a request-line token names, if any.  Any other token,
/// `HTTP/2.0` included, is a version parse failure, never a crash.
pub open spec fn version_of_token(t: Seq<char>) -> Option<HttpVersion> {
    if t == "HTTP/1.1"@ {
        Some(HttpVersion::Http11)
    } else if t == "HTTP/1.0"@ {
        Some(HttpVersion::Http10)
    } else {
        None
    }
}

/// The detail text that accompanies a parse failure of each phase.
pub open spec fn phase_message(ph: ParsePhase) -> Seq<char> {
    match ph {
        ParsePhase::Encoding => "Parsing request text."@,
        ParsePhase::Method => "Parsing response method."@,
        ParsePhase::Uri => "Parsing URI."@,
        ParsePhase::Version => "Parsing version."@,
        ParsePhase::HeaderName => "Parsing header name."@,
        ParsePhase::HeaderValue => "Parsing header value."@,
    }
}

/// True of a codec error that reports a parse failure of phase `ph` with
/// the detail text of that phase.
pub open spec fn is_parse_failure(e: NinoverseHttpHandlerError, ph: ParsePhase) -> bool {
    &&& e matches NinoverseHttpHandlerError::ParsingError { .. }
    &&& err_phase(e) == Some(ph)
    &&& err_info(e) == phase_message(ph)
}

/// Builds the codec error reporting a parse failure of phase `ph`.
pub fn parsing_failure(ph: ParsePhase) -> (e: NinoverseHttpHandlerError)
    ensures
        is_parse_failure(e, ph),
{
    let additional_info = match ph {
        ParsePhase::Encoding => String::from_str("Parsing request text."),
        ParsePhase::Method => String::from_str("Parsing response method."),
        ParsePhase::Uri => String::from_str("Parsing URI."),
        ParsePhase::Version => String::from_str("Parsing version."),
        ParsePhase::HeaderName => String::from_str("Parsing header name."),
        ParsePhase::HeaderValue => String::from_str("Parsing header value."),
    };
    NinoverseHttpHandlerError::ParsingError { phase: ph, additional_info }
}

/// True for the characters a URI may contain: the unreserved and
/// reserved characters of the URI grammar, and the percent sign of its
/// escapes.
pub open spec fn is_uri_char(c: char) -> bool {
    let u = c as u32;
    (0x41 <= u <= 0x5a) || (0x61 <= u <= 0x7a) || (0x30 <= u <= 0x39) || u == 0x2d || u == 0x2e
        || u == 0x5f || u == 0x7e || u == 0x3a || u == 0x2f || u == 0x3f || u == 0x23 || u == 0x5b
        || u == 0x5d || u == 0x40 || u == 0x21 || u == 0x24 || u == 0x26 || u == 0x27 || u == 0x28
        || u == 0x29 || u == 0x2a || u == 0x2b || u == 0x2c || u == 0x3b || u == 0x3d || u == 0x25
}

/// Run-time check for `is_uri_char`.
pub fn uri_char(c: char) -> (b: bool)
    ensures
        b == is_uri_char(c),
{
    let u = c as u32;
    (0x41 <= u && u <= 0x5a) || (0x61 <= u && u <= 0x7a) || (0x30 <= u && u <= 0x39) || u == 0x2d
        || u == 0x2e || u == 0x5f || u == 0x7e || u == 0x3a || u == 0x2f || u == 0x3f || u == 0x23
        || u == 0x5b || u == 0x5d || u == 0x40 || u == 0x21 || u == 0x24 || u == 0x26 || u == 0x27
        || u == 0x28 || u == 0x29 || u == 0x2a || u == 0x2b || u == 0x2c || u == 0x3b || u == 0x3d
        || u == 0x25
}

/// A URI token is non-empty and all of its characters are URI characters.
pub open spec fn valid_uri_token(s: Seq<char>) -> bool {
    s.len() > 0 && (forall|k: int| 0 <= k < s.len() ==> is_uri_char(#[trigger] s[k]))
}

/// Run-time check for `valid_uri_token`.
pub fn check_uri_token(s: &str) -> (b: bool)
    ensures
        b == valid_uri_token(s@),
{
    let n = s.unicode_len();
    if n == 0 {
        return false;
    }
    let mut k: usize = 0;
    while k < n && uri_char(s.get_char(k))
        invariant
            n == s@.len(),
            0 <= k <= n,
            forall|j: int| 0 <= j < k ==> is_uri_char(#[trigger] s@[j]),
        decreases n - k,
    {
        k = k + 1;
    }
    k == n
}

/// What parsing a request line yields: its method, its URI token and its
/// version, or the phase that failed.  The first token must name a method,
/// the second must be a well-formed URI token, and the third must name an
/// accepted version; tokens past the third are ignored, and a missing
/// token fails its own phase, as an empty token would.
pub open spec fn spec_parse_request_line(line: Seq<char>) -> Result<
    (Method, Seq<char>, HttpVersion),
    ParsePhase,
> {
    let toks = spec_tokens(line);
    if toks.len() == 0 {
        Err(ParsePhase::Method)
    } else {
        match method_of_token(toks[0]) {
            None => Err(ParsePhase::Method),
            Some(m) => if toks.len() < 2 {
                Err(ParsePhase::Uri)
            } else if !valid_uri_token(toks[1]) {
                Err(ParsePhase::Uri)
            } else if toks.len() < 3 {
                Err(ParsePhase::Version)
            } else {
                match version_of_token(toks[2]) {
                    None => Err(ParsePhase::Version),
                    Some(v) => Ok((m, toks[1], v)),
                }
            },
        }
    }
}

/// The method named by a wire token, if any.
pub fn method_from_token(s: &str) -> (r: Option<Method>)
    ensures
        r == method_of_token(s@),
{
    if str_eq(s, "GET") {
        Some(Method::Get)
    } else if str_eq(s, "POST") {
        Some(Method::Post)
    } else if str_eq(s, "PUT") {
        Some(Method::Put)
    } else if str_eq(s, "DELETE") {
        Some(Method::Delete)
    } else if str_eq(s, "HEAD") {
        Some(Method::Head)
    } else if str_eq(s, "OPTIONS") {
        Some(Method::Options)
    } else if str_eq(s, "PATCH") {
        Some(Method::Patch)
    } else {
        None
    }
}

/// The version named by a wire token, if any.
pub fn version_from_token(s: &str) -> (r: Option<HttpVersion>)
    ensures
        r == version_of_token(s@),
{
    if str_eq(s, "HTTP/1.1") {
        Some(HttpVersion::Http11)
    } else if str_eq(s, "HTTP/1.0") {
        Some(HttpVersion::Http10)
    } else {
        None
    }
}

/// True for the characters a header name may contain: the token characters
/// of the header grammar.
pub open spec fn is_header_name_char(c: char) -> bool {
    let u = c as u32;
    (0x41 <= u <= 0x5a) || (0x61 <= u <= 0x7a) || (0x30 <= u <= 0x39) || u == 0x21 || u == 0x23
        || u == 0x24 || u == 0x25 || u == 0x26 || u == 0x27 || u == 0x2a || u == 0x2b || u == 0x2d
        || u == 0x2e || u == 0x5e || u == 0x5f || u == 0x60 || u == 0x7c || u == 0x7e
}

/// Run-time check for `is_header_name_char`.
pub fn header_name_char(c: char) -> (b: bool)
    ensures
        b == is_header_name_char(c),
{
    let u = c as u32;
    (0x41 <= u && u <= 0x5a) || (0x61 <= u && u <= 0x7a) || (0x30 <= u && u <= 0x39) || u == 0x21
        || u == 0x23 || u == 0x24 || u == 0x25 || u == 0x26 || u == 0x27 || u == 0x2a || u == 0x2b
        || u == 0x2d || u == 0x2e || u == 0x5e || u == 0x5f || u == 0x60 || u == 0x7c || u == 0x7e
}

/// True for the characters a header value may contain: horizontal tab and
/// everything visible, the space included.
pub open spec fn is_header_value_char(c: char) -> bool {
    let u = c as u32;
    u == 0x09 || (0x20 <= u && u != 0x7f)
}

/// Run-time check for `is_header_value_char`.
pub fn header_value_char(c: char) -> (b: bool)
    ensures
        b == is_header_value_char(c),
{
    let u = c as u32;
    u == 0x09 || (0x20 <= u && u != 0x7f)
}

/// A header name is non-empty and all of its characters are name
/// characters.
pub open spec fn valid_header_name(s: Seq<char>) -> bool {
    s.len() > 0 && (forall|k: int| 0 <= k < s.len() ==> is_header_name_char(#[trigger] s[k]))
}

/// A header value may be empty; every character must be a value character.
pub open spec fn valid_header_value(s: Seq<char>) -> bool {
    forall|k: int| 0 <= k < s.len() ==> is_header_value_char(#[trigger] s[k])
}

/// Run-time check for `valid_header_name`.
pub fn check_header_name(s: &str) -> (b: bool)
    ensures
        b == valid_header_name(s@),
{
    let n = s.unicode_len();
    if n == 0 {
        return false;
    }
    let mut k: usize = 0;
    while k < n && header_name_char(s.get_char(k))
        invariant
            n == s@.len(),
            0 <= k <= n,
            forall|j: int| 0 <= j < k ==> is_header_name_char(#[trigger] s@[j]),
        decreases n - k,
    {
        k = k + 1;
    }
    k == n
}

/// Run-time check for `valid_header_value`.
pub fn check_header_value(s: &str) -> (b: bool)
    ensures
        b == valid_header_value(s@),
{
    let n = s.unicode_len();
    let mut k: usize = 0;
    while k < n && header_value_char(s.get_char(k))
        invariant
            n == s@.len(),
            0 <= k <= n,
            forall|j: int| 0 <= j < k ==> is_header_value_char(#[trigger] s@[j]),
        decreases n - k,
    {
        k = k + 1;
    }
    k == n
}

/// What one header line declares.  The name is everything before the first
/// `: `; the value everything after it, or empty when the line has no
/// separator.  A malformed name or value fails its phase.
pub open spec fn spec_header_line(line: Seq<char>) -> Result<(Seq<char>, Seq<char>), ParsePhase> {
    let p = pair_pos(line, 0, ':', ' ');
    let name = if p >= line.len() {
        line
    } else {
        line.subrange(0, p)
    };
    let value = if p >= line.len() {
        Seq::<char>::empty()
    } else {
        line.subrange(p + 2, line.len() as int)
    };
    if !valid_header_name(name) {
        Err(ParsePhase::HeaderName)
    } else if !valid_header_value(value) {
        Err(ParsePhase::HeaderValue)
    } else {
        Ok((name, value))
    }
}

/// What the header block declares, reading `lines` from `i`: the declared
/// pairs in order, and the index of the blank line (or the end) that closed
/// the block; or the phase of the first malformed line.
pub open spec fn spec_parse_headers(lines: Seq<Seq<char>>, i: int) -> Result<
    (Seq<(Seq<char>, Seq<char>)>, int),
    ParsePhase,
>
    decreases lines.len() - i,
{
    if i < 0 || i >= lines.len() {
        Ok((Seq::empty(), i))
    } else if lines[i].len() == 0 {
        Ok((Seq::empty(), i))
    } else {
        match spec_header_line(lines[i]) {
            Err(ph) => Err(ph),
            Ok(pair) => match spec_parse_headers(lines, i + 1) {
                Err(ph) => Err(ph),
                Ok(rest) => Ok((seq![pair] + rest.0, rest.1)),
            },
        }
    }
}

/// The pairs declared by the well-formed lines with indices in `[i, j)`.
pub open spec fn spec_header_pairs(lines: Seq<Seq<char>>, i: int, j: int) -> Seq<
    (Seq<char>, Seq<char>),
>
    decreases j - i,
{
    if i < 0 || i >= j || j > lines.len() {
        Seq::empty()
    } else {
        match spec_header_line(lines[i]) {
            Ok(pair) => seq![pair] + spec_header_pairs(lines, i + 1, j),
            Err(_) => spec_header_pairs(lines, i + 1, j),
        }
    }
}

/// The index of the line on which header reading stops: the first line
/// at or after `i` that is blank or malformed, or the end of the lines.
pub open spec fn spec_headers_taken(lines: Seq<Seq<char>>, i: int) -> int
    decreases lines.len() - i,
{
    if i < 0 || i >= lines.len() {
        i
    } else if lines[i].len() == 0 {
        i
    } else {
        match spec_header_line(lines[i]) {
            Err(_) => i,
            Ok(_) => spec_headers_taken(lines, i + 1),
        }
    }
}

/// A scan that saw only non-empty well-formed lines up to `i`, and a
/// blank line, a malformed line or the end at `i`, found where header
/// reading stops.
proof fn lemma_headers_taken_is(lines: Seq<Seq<char>>, start: int, i: int)
    requires
        0 <= start <= i <= lines.len(),
        forall|k: int|
            start <= k < i ==> #[trigger] lines[k].len() > 0 && spec_header_line(lines[k]) is Ok,
        i == lines.len() || lines[i].len() == 0 || spec_header_line(lines[i]) is Err,
    ensures
        spec_headers_taken(lines, start) == i,
    decreases i - start,
{
    if start < i {
        lemma_headers_taken_is(lines, start + 1, i);
    }
}

/// Extending the parsed range by one well-formed line appends its pair.
proof fn lemma_header_pairs_snoc(lines: Seq<Seq<char>>, i: int, j: int)
    requires
        0 <= i <= j < lines.len(),
        spec_header_line(lines[j]) is Ok,
    ensures
        spec_header_pairs(lines, i, j + 1) =~= spec_header_pairs(lines, i, j).push(
            spec_header_line(lines[j]).unwrap(),
        ),
    decreases j - i,
{
    if i < j {
        lemma_header_pairs_snoc(lines, i + 1, j);
    } else {
        assert(spec_header_pairs(lines, j + 1, j + 1) == Seq::<(Seq<char>, Seq<char>)>::empty());
    }
}

/// A block whose lines up to a closing blank line (or the end) are all
/// non-empty and well-formed parses to exactly the pairs those lines
/// declare, stopping at the close.
proof fn lemma_parse_headers_closed(lines: Seq<Seq<char>>, start: int, i: int)
    requires
        0 <= start <= i <= lines.len(),
        forall|k: int|
            start <= k < i ==> #[trigger] lines[k].len() > 0 && spec_header_line(lines[k]) is Ok,
        i == lines.len() || lines[i].len() == 0,
    ensures
        spec_parse_headers(lines, start) matches Ok(t) && t.0 == spec_header_pairs(
            lines,
            start,
            i,
        ) && t.1 == i,
    decreases i - start,
{
    if start < i {
        lemma_parse_headers_closed(lines, start + 1, i);
        assert(spec_header_pairs(lines, start, i) == seq![
            spec_header_line(lines[start]).unwrap(),
        ] + spec_header_pairs(lines, start + 1, i));
    }
}

/// A block whose first malformed line has phase `ph` fails with `ph`.
proof fn lemma_parse_headers_err(lines: Seq<Seq<char>>, start: int, i: int, ph: ParsePhase)
    requires
        0 <= start <= i < lines.len(),
        forall|k: int|
            start <= k < i ==> #[trigger] lines[k].len() > 0 && spec_header_line(lines[k]) is Ok,
        lines[i].len() > 0,
        spec_header_line(lines[i]) == Err::<(Seq<char>, Seq<char>), ParsePhase>(ph),
    ensures
        spec_parse_headers(lines, start) == Err::<(Seq<(Seq<char>, Seq<char>)>, int), ParsePhase>(
            ph,
        ),
    decreases i - start,
{
    if start < i {
        lemma_parse_headers_err(lines, start + 1, i, ph);
    }
}

/// Splits one header line into its declared name and value.
pub fn parse_header_line(line: &str) -> (r: Result<(String, String), NinoverseHttpHandlerError>)
    ensures
        spec_header_line(line@) matches Ok(t) ==> r matches Ok(out) && out.0@ == t.0 && out.1@
            == t.1,
        spec_header_line(line@) matches Err(ph) ==> r matches Err(e) && is_parse_failure(e, ph),
{
    let n = line.unicode_len();
    let p = find_pair(line, 0, ':', ' ');
    let name: String = if p < n {
        String::from_str(line.substring_char(0, p))
    } else {
        String::from_str(line)
    };
    let value: String = if p < n {
        String::from_str(line.substring_char(p + 2, n))
    } else {
        String::new()
    };
    proof {
        if p >= n {
            assert(name@ == line@);
        }
    }
    if !check_header_name(name.as_str()) {
        return Err(parsing_failure(ParsePhase::HeaderName));
    }
    if !check_header_value(value.as_str()) {
        return Err(parsing_failure(ParsePhase::HeaderValue));
    }
    Ok((name, value))
}

/// Reads header lines from `start` until the first blank line or the end,
/// appending each declared pair to `headers`; reports the index of the line
/// that closed the block.
pub fn parse_headers(headers: &mut Vec<(String, String)>, lines: &Vec<String>, start: usize) -> (r:
    Result<usize, NinoverseHttpHandlerError>)
    requires
        start <= lines@.len(),
    ensures
        spec_parse_headers(lines.deep_view(), start as int) matches Ok(t) ==> r matches Ok(stop)
            && stop == t.1 && start <= stop <= lines@.len() && final(headers).deep_view() == old(
            headers,
        ).deep_view() + t.0,
        spec_parse_headers(lines.deep_view(), start as int) matches Err(ph) ==> r matches Err(e)
            && is_parse_failure(e, ph),
        final(headers).deep_view() == old(headers).deep_view() + spec_header_pairs(
            lines.deep_view(),
            start as int,
            spec_headers_taken(lines.deep_view(), start as int),
        ),
{
    let ghost dv = lines.deep_view();
    let ghost orig = headers.deep_view();
    let n = lines.len();
    let mut i: usize = start;
    while i < n && !lines[i].as_str().is_empty()
        invariant
            start <= i <= n,
            n == lines@.len(),
            dv == lines.deep_view(),
            orig == old(headers).deep_view(),
            forall|k: int|
                start <= k < i ==> #[trigger] dv[k].len() > 0 && spec_header_line(dv[k]) is Ok,
            headers.deep_view() == orig + spec_header_pairs(dv, start as int, i as int),
        decreases n - i,
    {
        proof {
            assert(dv[i as int] == lines@[i as int]@);
        }
        let pair = match parse_header_line(lines[i].as_str()) {
            Ok(p) => p,
            Err(e) => {
                proof {
                    match spec_header_line(dv[i as int]) {
                        Ok(_) => {},
                        Err(ph) => {
                            lemma_parse_headers_err(dv, start as int, i as int, ph);
                        },
                    }
                    lemma_headers_taken_is(dv, start as int, i as int);
                }
                return Err(e);
            },
        };
        let ghost prev = headers.deep_view();
        headers.push(pair);
        proof {
            assert(headers.deep_view() =~= prev.push((pair.0@, pair.1@)));
            lemma_header_pairs_snoc(dv, start as int, i as int);
            assert(prev.push((pair.0@, pair.1@)) =~= orig + spec_header_pairs(
                dv,
                start as int,
                i as int + 1,
            ));
        }
        i = i + 1;
    }
    proof {
        lemma_parse_headers_closed(dv, start as int, i as int);
        lemma_headers_taken_is(dv, start as int, i as int);
    }
    Ok(i)
}

/// Splits a request line into method, URI and version.
pub fn parse_request_line(request_line: &str) -> (r: Result<
    (Method, String, HttpVersion),
    NinoverseHttpHandlerError,
>)
    ensures
        spec_parse_request_line(request_line@) matches Ok(t) ==> r matches Ok(out) && out.0 == t.0
            && out.1@ == t.1 && out.2 == t.2,
        spec_parse_request_line(request_line@) matches Err(ph) ==> r matches Err(e)
            && is_parse_failure(e, ph),
{
    let toks = split_whitespace_tokens(request_line);
    proof {
        assert(forall|i: int|
            0 <= i < toks@.len() ==> spec_tokens(request_line@)[i] == #[trigger] toks@[i]@);
    }
    let method = if toks.len() == 0 {
        None
    } else {
        method_from_token(toks[0].as_str())
    };
    let method = match method {
        None => {
            return Err(parsing_failure(ParsePhase::Method));
        },
        Some(m) => m,
    };
    if toks.len() < 2 {
        return Err(parsing_failure(ParsePhase::Uri));
    }
    if !check_uri_token(toks[1].as_str()) {
        return Err(parsing_failure(ParsePhase::Uri));
    }
    let uri = toks[1].clone();
    let version = if toks.len() < 3 {
        None
    } else {
        version_from_token(toks[2].as_str())
    };
    let version = match version {
        None => {
            return Err(parsing_failure(ParsePhase::Version));
        },
        Some(v) => v,
    };
    Ok((method, uri, version))
}

/// What a body line yields: the value the trimmed line decodes to, or the
/// type's zero value when the line decodes to nothing.  Decoding is
/// deliberately lenient: a POST whose payload does not decode still parses.
pub open spec fn body_outcome<B: HttpBody>(line: Seq<char>, b: B) -> bool {
    if exists|v: B| B::decodes_to(spec_trim(line), v) {
        B::decodes_to(spec_trim(line), b)
    } else {
        b.is_zero()
    }
}

/// Decodes a body line, trimming whitespace and control padding first and
/// falling back to the type's zero value when the payload does not decode.
pub fn parse_body<B: HttpBody>(line: &str) -> (b: B)
    ensures
        body_outcome(line@, b),
{
    let trimmed = trim_wire_text(line);
    match B::decode(trimmed.as_str()) {
        Some(v) => v,
        None => B::zero(),
    }
}

/// What parsing a whole raw request yields before its body is decoded: the
/// request line's pieces, the header pairs, and the body line (present only
/// for a POST with text after the blank line); or the phase that failed.
pub open spec fn spec_parse_request_meta(s: Seq<char>) -> Result<
    (Method, Seq<char>, HttpVersion, Seq<(Seq<char>, Seq<char>)>, Option<Seq<char>>),
    ParsePhase,
> {
    let lines = spec_lines(s);
    match spec_parse_request_line(lines[0]) {
        Err(ph) => Err(ph),
        Ok(rl) => match spec_parse_headers(lines, 1) {
            Err(ph) => Err(ph),
            Ok(hs) => {
                let body_line: Option<Seq<char>> = if rl.0 is Post && hs.1 + 1 < lines.len() {
                    Some(lines[hs.1 + 1])
                } else {
                    None
                };
                Ok((rl.0, rl.1, rl.2, hs.0, body_line))
            },
        },
    }
}

/// True when the parsed request `req` is what the raw text `s` declares.
pub open spec fn request_parsed<B: HttpBody>(s: Seq<char>, req: Request<B>) -> bool {
    match spec_parse_request_meta(s) {
        Err(_) => false,
        Ok(t) => {
            &&& req.method == t.0
            &&& req.path@ == t.1
            &&& req.version == t.2
            &&& req.headers.deep_view() == t.3
            &&& match t.4 {
                Some(line) => body_outcome(line, req.body),
                None => req.body.is_zero(),
            }
        },
    }
}

/// Parses one raw request text into a structured request.
///
/// The text is split on `\r\n`; the first line must be a request line, the
/// following lines declare headers up to the first blank line, and for a
/// POST request the line after the blank one, when present, is decoded as
/// the body.
pub fn parse_request<B: HttpBody>(raw: &str) -> (r: Result<Request<B>, NinoverseHttpHandlerError>)
    ensures
        spec_parse_request_meta(raw@) is Ok ==> (r matches Ok(req) && request_parsed(raw@, req)),
        spec_parse_request_meta(raw@) matches Err(ph) ==> r matches Err(e) && is_parse_failure(
            e,
            ph,
        ),
{
    let lines = split_crlf(raw);
    proof {
        assert(lines@.len() >= 1);
        assert(lines.deep_view()[0] == lines@[0]@);
    }
    let request_line = match parse_request_line(lines[0].as_str()) {
        Ok(rl) => rl,
        Err(e) => {
            return Err(e);
        },
    };
    let method = request_line.0;
    let uri = request_line.1;
    let version = request_line.2;
    let mut headers: Vec<(String, String)> = Vec::new();
    let ghost no_headers = headers.deep_view();
    let stop = match parse_headers(&mut headers, &lines, 1) {
        Ok(stop) => stop,
        Err(e) => {
            return Err(e);
        },
    };
    proof {
        assert(no_headers + headers.deep_view() =~= headers.deep_view());
    }
    let body: B = if method == Method::Post && lines.len() - stop > 1 {
        proof {
            assert(lines.deep_view()[stop + 1] == lines@[stop as int + 1]@);
        }
        parse_body(lines[stop + 1].as_str())
    } else {
        B::zero()
    };
    Ok(Request { method, path: uri, version, headers, body })
}

/// The decimal digit characters.
pub open spec fn digit_char(d: int) -> char {
    if d == 0 {
        '0'
    } else if d == 1 {
        '1'
    } else if d == 2 {
        '2'
    } else if d == 3 {
        '3'
    } else if d == 4 {
        '4'
    } else if d == 5 {
        '5'
    } else if d == 6 {
        '6'
    } else if d == 7 {
        '7'
    } else if d == 8 {
        '8'
    } else {
        '9'
    }
}

/// The decimal rendering of `n`, most significant digit first.
pub open spec fn spec_status_digits(n: int) -> Seq<char>
    decreases n,
{
    if n < 10 {
        seq![digit_char(n)]
    } else {
        spec_status_digits(n / 10).push(digit_char(n % 10))
    }
}

/// The character of one decimal digit.
fn status_digit(d: u16) -> (s: String)
    requires
        d < 10,
    ensures
        s@ == seq![digit_char(d as int)],
{
    proof {
        reveal_strlit("0");
        reveal_strlit("1");
        reveal_strlit("2");
        reveal_strlit("3");
        reveal_strlit("4");
        reveal_strlit("5");
        reveal_strlit("6");
        reveal_strlit("7");
        reveal_strlit("8");
        reveal_strlit("9");
    }
    let s: &str = match d {
        0 => "0",
        1 => "1",
        2 => "2",
        3 => "3",
        4 => "4",
        5 => "5",
        6 => "6",
        7 => "7",
        8 => "8",
        _ => "9",
    };
    proof {
        assert(s@ =~= seq![digit_char(d as int)]);
    }
    String::from_str(s)
}

/// The decimal rendering of `n`, most significant digit first.
pub fn u16_digits(n: u16) -> (s: String)
    ensures
        s@ == spec_status_digits(n as int),
    decreases n,
{
    if n < 10 {
        status_digit(n)
    } else {
        let mut s = u16_digits(n / 10);
        let d = status_digit(n % 10);
        s.append(d.as_str());
        proof {
            assert(s@ =~= spec_status_digits(n as int / 10).push(digit_char(n as int % 10)));
        }
        s
    }
}

/// The wire text of the first `k` header lines, each `name: value` and a
/// line break.
pub open spec fn spec_header_lines_upto(hs: Seq<(Seq<char>, Seq<char>)>, k: int) -> Seq<char>
    decreases k,
{
    if k <= 0 || k > hs.len() {
        Seq::empty()
    } else {
        spec_header_lines_upto(hs, k - 1) + hs[k - 1].0 + ": "@ + hs[k - 1].1 + "\r\n"@
    }
}

/// The wire text of all header lines.
pub open spec fn spec_render_headers(hs: Seq<(Seq<char>, Seq<char>)>) -> Seq<char> {
    spec_header_lines_upto(hs, hs.len() as int)
}

/// The wire text of a response: status line, header lines, a blank line,
/// then the body payload.  No header is added beyond those given.
pub open spec fn spec_render_response(
    status: int,
    hs: Seq<(Seq<char>, Seq<char>)>,
    payload: Seq<char>,
) -> Seq<char> {
    "HTTP/1.1 "@ + spec_status_digits(status) + "\r\n"@ + spec_render_headers(hs) + "\r\n"@
        + payload
}

/// Whether every header of a response can be rendered on the wire.
pub open spec fn headers_renderable(hs: Seq<(Seq<char>, Seq<char>)>) -> bool {
    forall|k: int|
        #![trigger hs[k]]
        0 <= k < hs.len() ==> valid_header_name(hs[k].0) && valid_header_value(hs[k].1)
}

/// The wire text a response walks out as: exactly the render of its
/// status, headers and encoded body.
pub open spec fn spec_response_text<B: HttpBody>(response: Response<B>) -> Seq<char> {
    spec_render_response(
        response.status as int,
        response.headers.deep_view(),
        response.body.encoding(),
    )
}

/// Renders a response into its wire text.  Fails only when a header
/// carries a character that cannot stand on the wire.
pub fn response_to_string<B: HttpBody>(response: Response<B>) -> (r: Result<
    String,
    NinoverseHttpHandlerError,
>)
    ensures
        headers_renderable(response.headers.deep_view()) ==> (r matches Ok(s) && s@
            == spec_response_text(response)),
        !headers_renderable(response.headers.deep_view()) ==> (r matches Err(e)
            && e matches NinoverseHttpHandlerError::BufferError { .. } && err_info(e)
            == "Converting header value to &str."@),
{
    let ghost hs = response.headers.deep_view();
    let mut out = String::from_str("HTTP/1.1 ");
    let digits = u16_digits(response.status);
    out.append(digits.as_str());
    out.append("\r\n");
    let ghost head = "HTTP/1.1 "@ + spec_status_digits(response.status as int) + "\r\n"@;
    let mut k: usize = 0;
    while k < response.headers.len()
        invariant
            0 <= k <= response.headers@.len(),
            hs == response.headers.deep_view(),
            hs.len() == response.headers@.len(),
            head == "HTTP/1.1 "@ + spec_status_digits(response.status as int) + "\r\n"@,
            out@ == head + spec_header_lines_upto(hs, k as int),
            forall|j: int|
                #![trigger hs[j]]
                0 <= j < k ==> valid_header_name(hs[j].0) && valid_header_value(hs[j].1),
        decreases response.headers@.len() - k,
    {
        proof {
            assert(hs[k as int] == (response.headers@[k as int].0@, response.headers@[k as int].1@));
        }
        if !check_header_name(response.headers[k].0.as_str()) {
            proof {
                assert(!headers_renderable(hs));
            }
            return Err(
                NinoverseHttpHandlerError::BufferError {
                    additional_info: String::from_str("Converting header value to &str."),
                },
            );
        }
        if !check_header_value(response.headers[k].1.as_str()) {
            proof {
                assert(!headers_renderable(hs));
            }
            return Err(
                NinoverseHttpHandlerError::BufferError {
                    additional_info: String::from_str("Converting header value to &str."),
                },
            );
        }
        out.append(response.headers[k].0.as_str());
        out.append(": ");
        out.append(response.headers[k].1.as_str());
        out.append("\r\n");
        proof {
            assert(out@ =~= head + spec_header_lines_upto(hs, k as int + 1));
        }
        k = k + 1;
    }
    out.append("\r\n");
    let body = response.body.encode();
    out.append(body.as_str());
    proof {
        assert(out@ =~= spec_response_text(response));
    }
    Ok(out)
}

/// Renders a response and sends it over the stream in one write.
pub fn write_to_stream<B: HttpBody, O: OutputLink>(stream: &mut O, response: Response<B>) -> (r:
    Result<(), NinoverseHttpHandlerError>)
    ensures
        headers_renderable(response.headers.deep_view()) && r is Ok ==> final(stream).written()
            == old(stream).written() + spec_response_text(response),
        headers_renderable(response.headers.deep_view()) && r is Err ==> final(stream).written()
            == old(stream).written() && (r matches Err(e)
            && e matches NinoverseHttpHandlerError::StreamError { .. }),
        !headers_renderable(response.headers.deep_view()) ==> (r matches Err(e)
            && e matches NinoverseHttpHandlerError::BufferError { .. }) && final(stream).written()
            == old(stream).written(),
        final(stream).infallible() == old(stream).infallible(),
        old(stream).infallible() && headers_renderable(response.headers.deep_view()) ==> r is Ok,
{
    let rendered = match response_to_string(response) {
        Ok(s) => s,
        Err(e) => {
            return Err(e);
        },
    };
    match stream.send(rendered.as_str()) {
        Ok(_) => Ok(()),
        Err(_) => Err(
            NinoverseHttpHandlerError::StreamError {
                additional_info: String::from_str("Writing to stream."),
            },
        ),
    }
}

/// The wire token of each method is non-empty, contains no whitespace,
/// and names that method back.
proof fn lemma_method_token_wf(m: Method)
    ensures
        method_token(m).len() > 0,
        forall|k: int|
            0 <= k < method_token(m).len() ==> !is_token_ws(#[trigger] method_token(m)[k]),
        method_of_token(method_token(m)) == Some(m),
{
    reveal_strlit("GET");
    reveal_strlit("POST");
    reveal_strlit("PUT");
    reveal_strlit("DELETE");
    reveal_strlit("HEAD");
    reveal_strlit("OPTIONS");
    reveal_strlit("PATCH");
    let t = method_token(m);
    assert forall|k: int| 0 <= k < t.len() implies !is_token_ws(#[trigger] t[k]) by {
        if k == 0 {
        } else if k == 1 {
        } else if k == 2 {
        } else if k == 3 {
        } else if k == 4 {
        } else if k == 5 {
        } else {
            assert(k == 6);
        }
    }
    assert("GET"@.len() == 3);
    assert("POST"@.len() == 4);
    assert("PUT"@.len() == 3);
    assert("DELETE"@.len() == 6);
    assert("HEAD"@.len() == 4);
    assert("OPTIONS"@.len() == 7);
    assert("PATCH"@.len() == 5);
    assert("HEAD"@[0] == 'H');
    assert("POST"@[0] == 'P');
    assert("GET"@[0] == 'G');
    assert("PUT"@[0] == 'P');
}

/// The wire token of each accepted version is non-empty, contains no
/// whitespace, and names that version back.
proof fn lemma_version_token_wf(v: HttpVersion)
    ensures
        version_token(v).len() > 0,
        forall|k: int|
            0 <= k < version_token(v).len() ==> !is_token_ws(#[trigger] version_token(v)[k]),
        version_of_token(version_token(v)) == Some(v),
{
    reveal_strlit("HTTP/1.1");
    reveal_strlit("HTTP/1.0");
    let t = version_token(v);
    assert forall|k: int| 0 <= k < t.len() implies !is_token_ws(#[trigger] t[k]) by {
        if k == 0 {
        } else if k == 1 {
        } else if k == 2 {
        } else if k == 3 {
        } else if k == 4 {
        } else if k == 5 {
        } else if k == 6 {
        } else {
            assert(k == 7);
        }
    }
    assert("HTTP/1.1"@.len() == 8);
    assert("HTTP/1.0"@.len() == 8);
    assert("HTTP/1.1"@[7] == '1');
    assert("HTTP/1.0"@[7] == '0');
}

/// Every well-formed request line parses back to exactly the method, the
/// path and the version it was rendered from.  A path is well-formed when
/// it is a valid URI token, whose character set has no room for the
/// whitespace that separates the line's tokens.
pub proof fn lemma_request_line_round_trip(m: Method, path: Seq<char>, v: HttpVersion)
    requires
        valid_uri_token(path),
    ensures
        spec_parse_request_line(method_token(m) + seq![' '] + path + seq![' '] + version_token(v))
            == Ok::<(Method, Seq<char>, HttpVersion), ParsePhase>((m, path, v)),
{
    assert forall|k: int| 0 <= k < path.len() implies !is_token_ws(#[trigger] path[k]) by {
        assert(is_uri_char(path[k]));
        if path[k] == ' ' {
            assert(path[k] as u32 == 0x20);
        }
        if path[k] == '\t' {
            assert(path[k] as u32 == 0x09);
        }
    }
    lemma_method_token_wf(m);
    lemma_version_token_wf(v);
    let mt = method_token(m);
    let vt = version_token(v);
    let line = mt + seq![' '] + path + seq![' '] + vt;
    let a = mt.len() as int;
    let b = a + 1 + path.len() as int;
    let n = line.len() as int;
    assert(line[a] == ' ');
    assert(line[b] == ' ');
    assert(forall|k: int| 0 <= k < a ==> #[trigger] line[k] == mt[k]);
    assert(forall|k: int| a + 1 <= k < b ==> #[trigger] line[k] == path[k - (a + 1)]);
    assert(forall|k: int| b + 1 <= k < n ==> #[trigger] line[k] == vt[k - (b + 1)]);
    crate::text::lemma_tokens_from_run(line, 0, a);
    assert(line.subrange(0, a) =~= mt);
    assert(spec_tokens_from(line, a) == spec_tokens_from(line, a + 1));
    crate::text::lemma_tokens_from_run(line, a + 1, b);
    assert(line.subrange(a + 1, b) =~= path);
    assert(spec_tokens_from(line, b) == spec_tokens_from(line, b + 1));
    crate::text::lemma_tokens_from_run(line, b + 1, n);
    assert(line.subrange(b + 1, n) =~= vt);
    assert(spec_tokens_from(line, n) == Seq::<Seq<char>>::empty());
    assert(spec_tokens(line) =~= seq![mt, path, vt]);
}

/// No header-name character is a colon, so the rendered separator is the
/// first colon-space pair of the line.
proof fn lemma_name_has_no_colon(name: Seq<char>)
    requires
        valid_header_name(name),
    ensures
        forall|k: int| 0 <= k < name.len() ==> #[trigger] name[k] != ':',
{
    assert forall|k: int| 0 <= k < name.len() implies #[trigger] name[k] != ':' by {
        assert(is_header_name_char(name[k]));
        if name[k] == ':' {
            assert(name[k] as u32 == 0x3a);
        }
    }
}

/// One rendered header line declares exactly its name and value back.
pub proof fn lemma_header_line_round_trip(name: Seq<char>, value: Seq<char>)
    requires
        valid_header_name(name),
        valid_header_value(value),
    ensures
        spec_header_line(name + ": "@ + value) == Ok::<(Seq<char>, Seq<char>), ParsePhase>(
            (name, value),
        ),
{
    reveal_strlit(": ");
    lemma_name_has_no_colon(name);
    let line = name + ": "@ + value;
    let a = name.len() as int;
    assert(line[a] == ':');
    assert(line[a + 1] == ' ');
    assert(forall|k: int| 0 <= k < a ==> #[trigger] line[k] == name[k]);
    assert(forall|k: int|
        0 <= k < a ==> !(#[trigger] line[k] == ':' && k + 1 < line.len() && line[k + 1] == ' '));
    crate::text::lemma_pair_pos_is(line, 0, a, ':', ' ');
    assert(line.subrange(0, a) =~= name);
    assert(line.subrange(a + 2, line.len() as int) =~= value);
}

/// A header block of well-formed lines closed by a blank line parses to
/// exactly the pairs its lines declare, in order and in multiplicity, and
/// parsing stops at the blank line: whatever follows it, body-shaped or
/// not, is never read as a header.  Since the pairs here are arbitrary,
/// reordering the block's lines merely reorders the declared pairs: every
/// pair survives in every order.
pub proof fn lemma_header_block_round_trip(
    lines: Seq<Seq<char>>,
    pairs: Seq<(Seq<char>, Seq<char>)>,
    start: int,
)
    requires
        0 <= start,
        start + pairs.len() < lines.len(),
        forall|k: int|
            #![trigger pairs[k]]
            0 <= k < pairs.len() ==> lines[start + k] == pairs[k].0 + ": "@ + pairs[k].1,
        forall|k: int|
            #![trigger pairs[k]]
            0 <= k < pairs.len() ==> valid_header_name(pairs[k].0) && valid_header_value(
                pairs[k].1,
            ),
        lines[start + pairs.len()].len() == 0,
    ensures
        spec_parse_headers(lines, start) == Ok::<(Seq<(Seq<char>, Seq<char>)>, int), ParsePhase>(
            (pairs, start + pairs.len()),
        ),
        spec_parse_headers(lines, start).unwrap().0.to_multiset() == pairs.to_multiset(),
    decreases pairs.len(),
{
    reveal_strlit(": ");
    if pairs.len() == 0 {
        assert(pairs =~= Seq::<(Seq<char>, Seq<char>)>::empty());
    } else {
        assert(lines[start + 0] == pairs[0].0 + ": "@ + pairs[0].1);
        lemma_header_line_round_trip(pairs[0].0, pairs[0].1);
        assert((pairs[0].0, pairs[0].1) =~= pairs[0]);
        assert(lines[start].len() > 0);
        let rest = pairs.drop_first();
        assert forall|k: int|
            #![trigger rest[k]]
            0 <= k < rest.len() implies lines[start + 1 + k] == rest[k].0 + ": "@ + rest[k].1
            && valid_header_name(rest[k].0) && valid_header_value(rest[k].1) by {
            assert(rest[k] == pairs[k + 1]);
            assert(lines[start + (k + 1)] == pairs[k + 1].0 + ": "@ + pairs[k + 1].1);
        }
        lemma_header_block_round_trip(lines, rest, start + 1);
        assert(seq![pairs[0]] + rest =~= pairs);
        assert(spec_header_line(lines[start]) == Ok::<(Seq<char>, Seq<char>), ParsePhase>(
            pairs[0],
        ));
    }
}

/// Serializing a response and re-parsing its body payload with the same
/// body type yields the original body back: any value the payload decodes
/// to carries the very same payload, so on the wire, and in its view, it
/// is the original body.
pub proof fn lemma_response_body_round_trip<B: HttpBody>(response: Response<B>, reparsed: B)
    requires
        response.body.wf(),
        body_outcome(response.body.encoding(), reparsed),
    ensures
        reparsed.encoding() == response.body.encoding(),
        reparsed.wf(),
        spec_response_text(response) == spec_render_response(
            response.status as int,
            response.headers.deep_view(),
            Seq::empty(),
        ) + response.body.encoding(),
{
    response.body.payload_round_trip();
    B::decoding_inverts(response.body.encoding(), reparsed);
    assert(spec_render_response(
        response.status as int,
        response.headers.deep_view(),
        Seq::empty(),
    ) + response.body.encoding() =~= spec_response_text(response));
}

/// The path segments of a request: one leading separator is stripped, and
/// the rest of the path is split on the separator.  A path of just the
/// separator yields one empty segment, which dispatch treats as the root.
pub open spec fn spec_segments(path: Seq<char>) -> Seq<Seq<char>> {
    let stripped = if path.len() > 0 && path[0] == '/' {
        path.skip(1)
    } else {
        path
    };
    spec_split_char(stripped, '/')
}

/// The path segments of `request`, in order.
pub fn extract_uri_pieces_vector<B>(request: &Request<B>) -> (r: Vec<String>)
    ensures
        r.deep_view() == spec_segments(request.path@),
        r@.len() >= 1,
{
    let p = request.path.as_str();
    let n = p.unicode_len();
    let stripped: &str = if n > 0 && p.get_char(0) == '/' {
        p.substring_char(1, n)
    } else {
        p
    };
    proof {
        if n > 0 && p@[0] == '/' {
            assert(stripped@ =~= p@.skip(1));
        }
    }
    split_char_all(stripped, '/')
}

} // verus!
