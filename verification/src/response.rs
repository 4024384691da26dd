//! Responses as they go on the wire: the status line, the headers and the
//! body, and the table of status codes.
use vstd::prelude::*;

use std::collections::HashMap;

use crate::request::{
    content_length_name, declared_length, method_text, version_text, HTTPMethod, HTTPVersion,
};
use crate::strmap::{pairs_map, StringMap};
use crate::text::{
    chars_of, decimal, decimal_string, lemma_decimal, lemma_parse_decimal, lemma_trim_digits,
    utf8_len, utf8_len_in,
};

verus! {

broadcast use {vstd::string::group_string_axioms, vstd::std_specs::hash::group_hash_axioms};

/// A response ready to be written.
pub struct Response {
    pub version: HTTPVersion,
    pub status_code: u16,
    pub body: Option<String>,
    pub headers: StringMap,
}

impl Response {
    /// A response made of the given parts.
    pub fn new(
        body: Option<String>,
        status_code: u16,
        headers: StringMap,
        version: HTTPVersion,
    ) -> (r: Self)
        ensures
            r.version == version,
            r.status_code == status_code,
            r.body == body,
            r.headers == headers,
    {
        Response { version, status_code, body, headers }
    }
}

/// The status codes that the server names, with their reason phrases.
pub open spec fn status_table() -> Map<u16, &'static str> {
    map![
        100u16 => "Continue",
        101u16 => "Switching Protocols",
        102u16 => "Processing",
        103u16 => "Early Hints",
        200u16 => "OK",
        201u16 => "Created",
        202u16 => "Accepted",
        203u16 => "Non-Authoritative Information",
        204u16 => "No Content",
        205u16 => "Reset Content",
        206u16 => "Partial Content",
        207u16 => "Multi-Status",
        208u16 => "Already Reported",
        226u16 => "IM Used",
        300u16 => "Multiple Choices",
        301u16 => "Moved Permanently",
        302u16 => "Found",
        303u16 => "See Other",
        304u16 => "Not Modified",
        305u16 => "Use Proxy",
        307u16 => "Temporary Redirect",
        308u16 => "Permanent Redirect",
        400u16 => "Bad Request",
        401u16 => "Unauthorized",
        402u16 => "Payment Required",
        403u16 => "Forbidden",
        404u16 => "Not Found",
        405u16 => "Method Not Allowed",
        406u16 => "Not Acceptable",
        407u16 => "Proxy Authentication Required",
        408u16 => "Request Timeout",
        409u16 => "Conflict",
        410u16 => "Gone",
        411u16 => "Length Required",
        412u16 => "Precondition Failed",
        413u16 => "Content Too Large",
        414u16 => "URI Too Long",
        415u16 => "Unsupported Media Type",
        416u16 => "Range Not Satisfiable",
        417u16 => "Expectation Failed",
        418u16 => "I'm a teapot",
        421u16 => "Misdirected Request",
        422u16 => "Unprocessable Content",
        423u16 => "Locked",
        424u16 => "Failed Dependency",
        425u16 => "Too Early",
        426u16 => "Upgrade Required",
        428u16 => "Precondition Required",
        429u16 => "Too Many Requests",
        431u16 => "Request Header Fields Too Large",
        451u16 => "Unavailable For Legal Reasons",
        500u16 => "Internal Server Error",
        501u16 => "Not Implemented",
        502u16 => "Bad Gateway",
        503u16 => "Service Unavailable",
        504u16 => "Gateway Timeout",
        505u16 => "HTTP Version Not Supported",
        506u16 => "Variant Also Negotiates",
        507u16 => "Insufficient Storage",
        508u16 => "Loop Detected",
        510u16 => "Not Extended",
        511u16 => "Network Authentication Required"
    ]
}

/// The reason phrase of a status code: the table's, or `Unknown Status`.
pub open spec fn reason_phrase(code: u16) -> Seq<char> {
    if status_table().contains_key(code) {
        status_table()[code]@
    } else {
        "Unknown Status"@
    }
}

/// The reason phrases of the status lines: each status code that the server
/// names has its standard phrase, and every other code is an unknown status.
pub proof fn law_reason_phrases(code: u16)
    ensures
        reason_phrase(100) == "Continue"@,
        reason_phrase(101) == "Switching Protocols"@,
        reason_phrase(102) == "Processing"@,
        reason_phrase(103) == "Early Hints"@,
        reason_phrase(200) == "OK"@,
        reason_phrase(201) == "Created"@,
        reason_phrase(202) == "Accepted"@,
        reason_phrase(203) == "Non-Authoritative Information"@,
        reason_phrase(204) == "No Content"@,
        reason_phrase(205) == "Reset Content"@,
        reason_phrase(206) == "Partial Content"@,
        reason_phrase(207) == "Multi-Status"@,
        reason_phrase(208) == "Already Reported"@,
        reason_phrase(226) == "IM Used"@,
        reason_phrase(300) == "Multiple Choices"@,
        reason_phrase(301) == "Moved Permanently"@,
        reason_phrase(302) == "Found"@,
        reason_phrase(303) == "See Other"@,
        reason_phrase(304) == "Not Modified"@,
        reason_phrase(305) == "Use Proxy"@,
        reason_phrase(307) == "Temporary Redirect"@,
        reason_phrase(308) == "Permanent Redirect"@,
        reason_phrase(400) == "Bad Request"@,
        reason_phrase(401) == "Unauthorized"@,
        reason_phrase(402) == "Payment Required"@,
        reason_phrase(403) == "Forbidden"@,
        reason_phrase(404) == "Not Found"@,
        reason_phrase(405) == "Method Not Allowed"@,
        reason_phrase(406) == "Not Acceptable"@,
        reason_phrase(407) == "Proxy Authentication Required"@,
        reason_phrase(408) == "Request Timeout"@,
        reason_phrase(409) == "Conflict"@,
        reason_phrase(410) == "Gone"@,
        reason_phrase(411) == "Length Required"@,
        reason_phrase(412) == "Precondition Failed"@,
        reason_phrase(413) == "Content Too Large"@,
        reason_phrase(414) == "URI Too Long"@,
        reason_phrase(415) == "Unsupported Media Type"@,
        reason_phrase(416) == "Range Not Satisfiable"@,
        reason_phrase(417) == "Expectation Failed"@,
        reason_phrase(418) == "I'm a teapot"@,
        reason_phrase(421) == "Misdirected Request"@,
        reason_phrase(422) == "Unprocessable Content"@,
        reason_phrase(423) == "Locked"@,
        reason_phrase(424) == "Failed Dependency"@,
        reason_phrase(425) == "Too Early"@,
        reason_phrase(426) == "Upgrade Required"@,
        reason_phrase(428) == "Precondition Required"@,
        reason_phrase(429) == "Too Many Requests"@,
        reason_phrase(431) == "Request Header Fields Too Large"@,
        reason_phrase(451) == "Unavailable For Legal Reasons"@,
        reason_phrase(500) == "Internal Server Error"@,
        reason_phrase(501) == "Not Implemented"@,
        reason_phrase(502) == "Bad Gateway"@,
        reason_phrase(503) == "Service Unavailable"@,
        reason_phrase(504) == "Gateway Timeout"@,
        reason_phrase(505) == "HTTP Version Not Supported"@,
        reason_phrase(506) == "Variant Also Negotiates"@,
        reason_phrase(507) == "Insufficient Storage"@,
        reason_phrase(508) == "Loop Detected"@,
        reason_phrase(510) == "Not Extended"@,
        reason_phrase(511) == "Network Authentication Required"@,
        !(code == 100 || code == 101 || code == 102 || code == 103 || code == 200 || code == 201 || code == 202 || code == 203 || code == 204 || code == 205 || code == 206 || code == 207 || code == 208 || code == 226 || code == 300 || code == 301 || code == 302 || code == 303 || code == 304 || code == 305 || code == 307 || code == 308 || code == 400 || code == 401 || code == 402 || code == 403 || code == 404 || code == 405 || code == 406 || code == 407 || code == 408 || code == 409 || code == 410 || code == 411 || code == 412 || code == 413 || code == 414 || code == 415 || code == 416 || code == 417 || code == 418 || code == 421 || code == 422 || code == 423 || code == 424 || code == 425 || code == 426 || code == 428 || code == 429 || code == 431 || code == 451 || code == 500 || code == 501 || code == 502 || code == 503 || code == 504 || code == 505 || code == 506 || code == 507 || code == 508 || code == 510 || code == 511) ==> reason_phrase(code) == "Unknown Status"@,
{
}

/// The table of status codes and their reason phrases.
pub fn http_status_codes() -> (m: HashMap<u16, &'static str>)
    ensures
        m@ == status_table(),
{
    let mut m: HashMap<u16, &'static str> = HashMap::new();
    m.insert(100, "Continue");
    m.insert(101, "Switching Protocols");
    m.insert(102, "Processing");
    m.insert(103, "Early Hints");
    m.insert(200, "OK");
    m.insert(201, "Created");
    m.insert(202, "Accepted");
    m.insert(203, "Non-Authoritative Information");
    m.insert(204, "No Content");
    m.insert(205, "Reset Content");
    m.insert(206, "Partial Content");
    m.insert(207, "Multi-Status");
    m.insert(208, "Already Reported");
    m.insert(226, "IM Used");
    m.insert(300, "Multiple Choices");
    m.insert(301, "Moved Permanently");
    m.insert(302, "Found");
    m.insert(303, "See Other");
    m.insert(304, "Not Modified");
    m.insert(305, "Use Proxy");
    m.insert(307, "Temporary Redirect");
    m.insert(308, "Permanent Redirect");
    m.insert(400, "Bad Request");
    m.insert(401, "Unauthorized");
    m.insert(402, "Payment Required");
    m.insert(403, "Forbidden");
    m.insert(404, "Not Found");
    m.insert(405, "Method Not Allowed");
    m.insert(406, "Not Acceptable");
    m.insert(407, "Proxy Authentication Required");
    m.insert(408, "Request Timeout");
    m.insert(409, "Conflict");
    m.insert(410, "Gone");
    m.insert(411, "Length Required");
    m.insert(412, "Precondition Failed");
    m.insert(413, "Content Too Large");
    m.insert(414, "URI Too Long");
    m.insert(415, "Unsupported Media Type");
    m.insert(416, "Range Not Satisfiable");
    m.insert(417, "Expectation Failed");
    m.insert(418, "I'm a teapot");
    m.insert(421, "Misdirected Request");
    m.insert(422, "Unprocessable Content");
    m.insert(423, "Locked");
    m.insert(424, "Failed Dependency");
    m.insert(425, "Too Early");
    m.insert(426, "Upgrade Required");
    m.insert(428, "Precondition Required");
    m.insert(429, "Too Many Requests");
    m.insert(431, "Request Header Fields Too Large");
    m.insert(451, "Unavailable For Legal Reasons");
    m.insert(500, "Internal Server Error");
    m.insert(501, "Not Implemented");
    m.insert(502, "Bad Gateway");
    m.insert(503, "Service Unavailable");
    m.insert(504, "Gateway Timeout");
    m.insert(505, "HTTP Version Not Supported");
    m.insert(506, "Variant Also Negotiates");
    m.insert(507, "Insufficient Storage");
    m.insert(508, "Loop Detected");
    m.insert(510, "Not Extended");
    m.insert(511, "Network Authentication Required");
    assert(m@ =~= status_table());
    m
}

/// The status line: `HTTP/`, the version, the code and its reason phrase.
pub open spec fn status_line(version: HTTPVersion, code: u16) -> Seq<char> {
    "HTTP/"@ + version_text(version) + " "@ + decimal(code as nat) + " "@ + reason_phrase(code)
        + "\r\n"@
}

/// The header lines `name: value`, in order.
pub open spec fn header_block(ps: Seq<(Seq<char>, Seq<char>)>) -> Seq<char>
    decreases ps.len(),
{
    if ps.len() == 0 {
        Seq::empty()
    } else {
        header_block(ps.drop_last()) + ps.last().0 + ": "@ + ps.last().1 + "\r\n"@
    }
}

/// The text of a response: status line, header lines, an empty line, the
/// body and a line break.
pub open spec fn response_text(
    version: HTTPVersion,
    code: u16,
    headers: Seq<(Seq<char>, Seq<char>)>,
    body: Seq<char>,
) -> Seq<char> {
    status_line(version, code) + header_block(headers) + "\r\n"@ + body + "\r\n"@
}

impl Response {
    /// The text of the response as it goes on the wire. The body must be
    /// present.
    pub fn to_string(&self) -> (s: String)
        requires
            self.body is Some,
        ensures
            s@ == response_text(
                self.version,
                self.status_code,
                self.headers.pairs(),
                self.body.unwrap()@,
            ),
    {
        let table = http_status_codes();
        let reason: &str = match table.get(&self.status_code) {
            Some(r) => *r,
            None => "Unknown Status",
        };
        assert(reason@ == reason_phrase(self.status_code));
        let mut out = String::from_str("HTTP/");
        out.append(self.version.to_string().as_str());
        out.append(" ");
        out.append(decimal_string(self.status_code as u128).as_str());
        out.append(" ");
        out.append(reason);
        out.append("\r\n");
        assert(out@ == status_line(self.version, self.status_code));
        let n = self.headers.len();
        let mut i: usize = 0;
        assert(self.headers.pairs().subrange(0, 0) =~= Seq::<(Seq<char>, Seq<char>)>::empty());
        while i < n
            invariant
                i <= n,
                n == self.headers.pairs().len(),
                out@ == status_line(self.version, self.status_code) + header_block(
                    self.headers.pairs().subrange(0, i as int),
                ),
            decreases n - i,
        {
            let (k, v) = self.headers.entry(i);
            out.append(k.as_str());
            out.append(": ");
            out.append(v.as_str());
            out.append("\r\n");
            let ghost ps = self.headers.pairs().subrange(0, i + 1);
            assert(ps.drop_last() =~= self.headers.pairs().subrange(0, i as int));
            assert(ps.last() == self.headers.pairs()[i as int]);
            assert(out@ =~= status_line(self.version, self.status_code) + header_block(ps));
            i += 1;
        }
        assert(self.headers.pairs().subrange(0, n as int) =~= self.headers.pairs());
        let body = match &self.body {
            Some(b) => b,
            None => {
                return out;
            },
        };
        out.append("\r\n");
        out.append(body.as_str());
        out.append("\r\n");
        assert(out@ =~= response_text(
            self.version,
            self.status_code,
            self.headers.pairs(),
            self.body.unwrap()@,
        ));
        out
    }
}

/// The headers that every response of the server carries, in this order:
/// the content type, the length of the body in bytes and `Connection: close`.
pub open spec fn standard_headers(content_type: Seq<char>, body: Seq<char>) -> Seq<
    (Seq<char>, Seq<char>),
> {
    seq![
        ("Content-Type"@, content_type),
        ("Content-Length"@, decimal(utf8_len(body))),
        ("Connection"@, "close"@),
    ]
}

/// The response that answers a request of version `version` with `body`,
/// `status_code` and `content_type`.
pub fn prepare_response(
    version: HTTPVersion,
    body: String,
    status_code: u16,
    content_type: String,
) -> (r: Response)
    ensures
        r.version == version,
        r.status_code == status_code,
        r.body == Some(body),
        r.headers.pairs() == standard_headers(content_type@, body@),
{
    let cs = chars_of(body.as_str());
    let size = utf8_len_in(&cs, 0, cs.len());
    assert(cs@.subrange(0, cs@.len() as int) =~= body@);
    let mut headers = StringMap::new();
    proof {
        reveal_strlit("Content-Type");
        reveal_strlit("Content-Length");
        reveal_strlit("Connection");
    }
    let ghost ct = content_type@;
    headers.insert(String::from_str("Content-Type"), content_type);
    assert("Content-Length"@[8] != "Content-Type"@[8]);
    assert(!headers@.contains_key("Content-Length"@));
    headers.insert(String::from_str("Content-Length"), decimal_string(size));
    assert("Connection"@.len() != "Content-Type"@.len());
    assert("Connection"@.len() != "Content-Length"@.len());
    assert(!headers@.contains_key("Connection"@));
    headers.insert(String::from_str("Connection"), String::from_str("close"));
    assert(headers.pairs() =~= standard_headers(ct, body@));
    Response::new(Some(body), status_code, headers, version)
}

/// The `Content-Length` that the server writes reads back, through the
/// request parser's reading of that header, as the number of bytes of the
/// body.
pub proof fn law_content_length_reads_back(content_type: Seq<char>, body: Seq<char>)
    requires
        utf8_len(body) <= usize::MAX,
    ensures
        declared_length(pairs_map(standard_headers(content_type, body))) == Some(
            Some(utf8_len(body) as usize),
        ),
{
    let n = utf8_len(body);
    let ps = standard_headers(content_type, body);
    reveal_strlit("Content-Type");
    reveal_strlit("Content-Length");
    reveal_strlit("Connection");
    assert("Content-Length"@[8] != "Content-Type"@[8]);
    assert("Connection"@.len() != "Content-Length"@.len());
    let p2 = ps.drop_last();
    let p1 = p2.drop_last();
    let p0 = p1.drop_last();
    assert(p0 =~= Seq::<(Seq<char>, Seq<char>)>::empty());
    assert(pairs_map(p0) == Map::<Seq<char>, Seq<char>>::empty());
    assert(pairs_map(p1) == pairs_map(p0).insert(p1.last().0, p1.last().1));
    assert(pairs_map(p2) == pairs_map(p1).insert(p2.last().0, p2.last().1));
    assert(pairs_map(ps) == pairs_map(p2).insert(ps.last().0, ps.last().1));
    assert(p2.last() == ("Content-Length"@, decimal(n)));
    assert(ps.last().0 == "Connection"@);
    assert(pairs_map(ps).contains_key(content_length_name()));
    assert(pairs_map(ps)[content_length_name()] == decimal(n));
    lemma_decimal(n);
    lemma_trim_digits(decimal(n));
    lemma_parse_decimal(n);
}

/// Every response that the server prepares tells the client that the
/// connection closes after it.
pub proof fn law_responses_close_connection(content_type: Seq<char>, body: Seq<char>)
    ensures
        pairs_map(standard_headers(content_type, body)).contains_key("Connection"@),
        pairs_map(standard_headers(content_type, body))["Connection"@] == "close"@,
{
    let ps = standard_headers(content_type, body);
    assert(ps.drop_last().push(ps.last()) =~= ps);
    assert(pairs_map(ps) == pairs_map(ps.drop_last()).insert(ps.last().0, ps.last().1));
}

/// The line that records an answered request: method, path and status code.
pub fn log_line(method: &HTTPMethod, path: &str, status_code: u16) -> (s: String)
    ensures
        s@ == method_text(*method) + " "@ + path@ + " "@ + decimal(status_code as nat) + "\n"@,
{
    let mut s = method.to_string();
    s.append(" ");
    s.append(path);
    s.append(" ");
    s.append(decimal_string(status_code as u128).as_str());
    s.append("\n");
    s
}

} // verus!
