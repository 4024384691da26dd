//! HTTP requests as they arrive on the wire: the request line, the header
//! section and a body whose size `Content-Length` gives.
use vstd::prelude::*;

use crate::strmap::{pairs_map, StringMap};
use crate::text::{
    chars_of, find_in, lemma_find, lemma_matches_char, lemma_matches_pair, lemma_split_at,
    lemma_split_whole, matches_at, no_match_before, parse_usize, parse_usize_in, piece, range_is, split, split_in,
    split_once, trim, trim_in, utf8_len, utf8_len_in, lemma_utf8_len_concat,
};

verus! {

broadcast use vstd::string::group_string_axioms;

/// The request methods that the server knows.
#[derive(PartialEq, Eq, Structural, Clone, Copy, Debug, Hash)]
pub enum HTTPMethod {
    GET,
    POST,
    DELETE,
    PUT,
}

/// The protocol versions that the server tells apart.
#[derive(PartialEq, Eq, Structural, Clone, Copy, Debug)]
pub enum HTTPVersion {
    HTTP11,
    HTTP10,
}

/// The name of a method as it stands in a request line.
pub open spec fn method_text(m: HTTPMethod) -> Seq<char> {
    match m {
        HTTPMethod::GET => "GET"@,
        HTTPMethod::POST => "POST"@,
        HTTPMethod::DELETE => "DELETE"@,
        HTTPMethod::PUT => "PUT"@,
    }
}

/// The number of a version as it stands after `HTTP/`.
pub open spec fn version_text(v: HTTPVersion) -> Seq<char> {
    match v {
        HTTPVersion::HTTP11 => "1.1"@,
        HTTPVersion::HTTP10 => "1.0"@,
    }
}

impl HTTPMethod {
    /// The name of the method (`GET`, `POST`, `DELETE` or `PUT`).
    pub fn to_string(&self) -> (s: String)
        ensures
            s@ == method_text(*self),
    {
        match self {
            HTTPMethod::GET => String::from_str("GET"),
            HTTPMethod::POST => String::from_str("POST"),
            HTTPMethod::DELETE => String::from_str("DELETE"),
            HTTPMethod::PUT => String::from_str("PUT"),
        }
    }
}

impl HTTPVersion {
    /// The version number (`1.1` or `1.0`).
    pub fn to_string(&self) -> (s: String)
        ensures
            s@ == version_text(*self),
    {
        match self {
            HTTPVersion::HTTP11 => String::from_str("1.1"),
            HTTPVersion::HTTP10 => String::from_str("1.0"),
        }
    }
}

/// A parsed request.
pub struct Request {
    pub method: HTTPMethod,
    pub path: String,
    pub version: HTTPVersion,
    pub headers: StringMap,
    pub body: Option<String>,
}

/// Why a request was refused.
#[derive(PartialEq, Eq, Structural, Clone, Copy, Debug)]
pub enum RequestError {
    HTTPMethodError,
    ParserError,
}

/// A request as plain values.
pub struct RequestView {
    pub method: HTTPMethod,
    pub path: Seq<char>,
    pub version: HTTPVersion,
    pub headers: Map<Seq<char>, Seq<char>>,
    pub body: Option<Seq<char>>,
}

/// The text of an optional string.
pub open spec fn opt_text(o: Option<String>) -> Option<Seq<char>> {
    match o {
        Some(s) => Some(s@),
        None => None,
    }
}

impl View for Request {
    type V = RequestView;

    open spec fn view(&self) -> RequestView {
        RequestView {
            method: self.method,
            path: self.path@,
            version: self.version,
            headers: self.headers@,
            body: opt_text(self.body),
        }
    }
}

impl Request {
    /// A request made of the given parts.
    pub fn new(
        method: HTTPMethod,
        path: String,
        version: HTTPVersion,
        headers: StringMap,
        body: Option<String>,
    ) -> (r: Self)
        ensures
            r.method == method,
            r.path == path,
            r.version == version,
            r.headers == headers,
            r.body == body,
    {
        Request { method, path, version, headers, body }
    }
}

/// What `{:?}` writes for a string: the string in double quotes, with the
/// characters that need it escaped.
pub uninterp spec fn debug_quoted(s: Seq<char>) -> Seq<char>;

/// `format!("{:?}", s)` for a string slice. Claimed: the result is
/// `debug_quoted` of the text of `s`, a function of that text alone.
#[verifier::external_body]
fn quoted(s: &str) -> (r: String)
    ensures
        r@ == debug_quoted(s@),
{
    format!("{:?}", s)
}

/// The entries of a map as `{:#?}` writes them, one per line.
pub open spec fn debug_entries(ps: Seq<(Seq<char>, Seq<char>)>) -> Seq<char>
    decreases ps.len(),
{
    if ps.len() == 0 {
        Seq::empty()
    } else {
        debug_entries(ps.drop_last()) + "    "@ + debug_quoted(ps.last().0) + ": "@
            + debug_quoted(ps.last().1) + ",\n"@
    }
}

/// A map of strings as `{:#?}` writes it.
pub open spec fn debug_map(ps: Seq<(Seq<char>, Seq<char>)>) -> Seq<char> {
    if ps.len() == 0 {
        "{}"@
    } else {
        "{\n"@ + debug_entries(ps) + "}"@
    }
}

/// An optional string as `{:#?}` writes it.
pub open spec fn debug_option(o: Option<Seq<char>>) -> Seq<char> {
    match o {
        None => "None"@,
        Some(b) => "Some(\n    "@ + debug_quoted(b) + ",\n)"@,
    }
}

/// The description of a request: method, path, version, headers and body.
pub open spec fn request_description(
    method: HTTPMethod,
    path: Seq<char>,
    version: HTTPVersion,
    headers: Seq<(Seq<char>, Seq<char>)>,
    body: Option<Seq<char>>,
) -> Seq<char> {
    "Request (\nmethod: "@ + method_text(method) + ",\npath: "@ + path + ",\nversion: "@
        + version_text(version) + "\nheaders: "@ + debug_map(headers) + "\nbody: "@ + debug_option(
        body,
    ) + "\n)"@
}

impl Request {
    /// A description of the request, for logs.
    pub fn to_string(&self) -> (s: String)
        ensures
            s@ == request_description(
                self.method,
                self.path@,
                self.version,
                self.headers.pairs(),
                opt_text(self.body),
            ),
    {
        let mut out = String::from_str("Request (\nmethod: ");
        out.append(self.method.to_string().as_str());
        out.append(",\npath: ");
        out.append(self.path.as_str());
        out.append(",\nversion: ");
        out.append(self.version.to_string().as_str());
        out.append("\nheaders: ");
        let n = self.headers.len();
        if n == 0 {
            out.append("{}");
        } else {
            out.append("{\n");
            let ghost start = out@;
            let mut i: usize = 0;
            assert(self.headers.pairs().subrange(0, 0) =~= Seq::<(Seq<char>, Seq<char>)>::empty());
            while i < n
                invariant
                    i <= n,
                    n == self.headers.pairs().len(),
                    out@ == start + debug_entries(self.headers.pairs().subrange(0, i as int)),
                decreases n - i,
            {
                let (k, v) = self.headers.entry(i);
                out.append("    ");
                out.append(quoted(k.as_str()).as_str());
                out.append(": ");
                out.append(quoted(v.as_str()).as_str());
                out.append(",\n");
                let ghost ps = self.headers.pairs().subrange(0, i + 1);
                assert(ps.drop_last() =~= self.headers.pairs().subrange(0, i as int));
                assert(ps.last() == self.headers.pairs()[i as int]);
                assert(out@ =~= start + debug_entries(ps));
                i += 1;
            }
            assert(self.headers.pairs().subrange(0, n as int) =~= self.headers.pairs());
            out.append("}");
        }
        out.append("\nbody: ");
        match &self.body {
            None => out.append("None"),
            Some(b) => {
                out.append("Some(\n    ");
                out.append(quoted(b.as_str()).as_str());
                out.append(",\n)");
            },
        }
        out.append("\n)");
        assert(out@ =~= request_description(
            self.method,
            self.path@,
            self.version,
            self.headers.pairs(),
            opt_text(self.body),
        ));
        out
    }
}

/// The line break of HTTP.
pub open spec fn crlf() -> Seq<char> {
    seq!['\r', '\n']
}

/// The name of the header that gives the size of the body.
pub open spec fn content_length_name() -> Seq<char> {
    "Content-Length"@
}

/// The lines of a request.
pub open spec fn request_lines(t: Seq<char>) -> Seq<Seq<char>> {
    split(t, crlf())
}

/// The first empty line at index `k` or after it, or -1 when there is none.
pub open spec fn first_blank(lines: Seq<Seq<char>>, k: int) -> int
    decreases lines.len() - k,
{
    if k < 0 || k >= lines.len() {
        -1
    } else if lines[k].len() == 0 {
        k
    } else {
        first_blank(lines, k + 1)
    }
}

/// The name and the value of a header line: the text before and after its
/// first colon.
pub open spec fn header_entry(line: Seq<char>) -> (Seq<char>, Seq<char>) {
    split_once(line, seq![':']).unwrap()
}

/// The header entries of lines `1..k`, in order.
pub open spec fn header_pairs(lines: Seq<Seq<char>>, k: int) -> Seq<(Seq<char>, Seq<char>)> {
    lines.subrange(1, k).map_values(|l: Seq<char>| header_entry(l))
}

/// Lines `1..k` all hold a colon.
pub open spec fn headers_well_formed(lines: Seq<Seq<char>>, k: int) -> bool {
    forall|j: int| 1 <= j < k ==> (#[trigger] split_once(lines[j], seq![':'])) is Some
}

/// The words of the request line.
pub open spec fn request_words(lines: Seq<Seq<char>>) -> Seq<Seq<char>> {
    split(lines[0], seq![' '])
}

/// The method that a word names.
pub open spec fn method_of(word: Seq<char>) -> Option<HTTPMethod> {
    if word == "GET"@ {
        Some(HTTPMethod::GET)
    } else if word == "POST"@ {
        Some(HTTPMethod::POST)
    } else if word == "DELETE"@ {
        Some(HTTPMethod::DELETE)
    } else if word == "PUT"@ {
        Some(HTTPMethod::PUT)
    } else {
        None
    }
}

/// The version that a version number names: `1.1`, and `1.0` for anything
/// else.
pub open spec fn version_of(number: Seq<char>) -> HTTPVersion {
    if number == "1.1"@ {
        HTTPVersion::HTTP11
    } else {
        HTTPVersion::HTTP10
    }
}

/// The body gathered from the lines `rest` after the text `data`: lines are
/// added, without their line breaks, until the body has at least `size`
/// bytes; `None` when the lines run out first.
pub open spec fn gather_body(data: Seq<char>, rest: Seq<Seq<char>>, size: nat) -> Option<
    Seq<char>,
>
    decreases rest.len(),
{
    if utf8_len(data) >= size {
        Some(data)
    } else if rest.len() == 0 {
        None
    } else {
        gather_body(data + rest[0], rest.drop_first(), size)
    }
}

/// What `Content-Length` declares in the headers `hm`: `Some(None)` without
/// that header, `Some(Some(n))` for a value that reads as the number `n`
/// once trimmed, and `None` for any other value.
pub open spec fn declared_length(hm: Map<Seq<char>, Seq<char>>) -> Option<Option<usize>> {
    if !hm.contains_key(content_length_name()) {
        Some(None)
    } else {
        match parse_usize(trim(hm[content_length_name()])) {
            None => None,
            Some(n) => Some(Some(n)),
        }
    }
}

/// The headers of the lines of a request whose header section ends at `e`.
pub open spec fn lines_headers(lines: Seq<Seq<char>>, e: int) -> Map<Seq<char>, Seq<char>> {
    pairs_map(header_pairs(lines, e))
}

/// The body of a request whose header section ends at line `e`: no body
/// without `Content-Length`; `None` (the request cannot be read) when the
/// size is not a number or the lines do not hold that many bytes.
pub open spec fn request_body(lines: Seq<Seq<char>>, e: int) -> Option<Option<Seq<char>>> {
    match declared_length(lines_headers(lines, e)) {
        None => None,
        Some(None) => Some(None),
        Some(Some(size)) => match gather_body(
            Seq::empty(),
            lines.subrange(e + 1, lines.len() as int),
            size as nat,
        ) {
            None => None,
            Some(b) => Some(Some(b)),
        },
    }
}

/// The header section of the text ends with an empty line and each of its
/// lines holds a colon.
pub open spec fn head_readable(t: Seq<char>) -> bool {
    let lines = request_lines(t);
    let e = first_blank(lines, 1);
    e >= 1 && headers_well_formed(lines, e)
}

/// The headers of a text whose header section is readable.
pub open spec fn text_headers(t: Seq<char>) -> Map<Seq<char>, Seq<char>> {
    let lines = request_lines(t);
    lines_headers(lines, first_blank(lines, 1))
}

/// The text can be read as a request: the header section is readable, the
/// request line has a method, a path and a version with a `/`, and, for a
/// known method, the body can be read.
pub open spec fn request_readable(t: Seq<char>) -> bool {
    let lines = request_lines(t);
    let e = first_blank(lines, 1);
    let words = request_words(lines);
    &&& head_readable(t)
    &&& words.len() >= 3
    &&& split(words[2], seq!['/']).len() >= 2
    &&& method_of(words[0]) is Some ==> request_body(lines, e) is Some
}

/// The request that a readable text holds, or the refusal of an unknown
/// method.
pub open spec fn parsed_request(t: Seq<char>) -> Result<RequestView, RequestError> {
    let lines = request_lines(t);
    let e = first_blank(lines, 1);
    let words = request_words(lines);
    match method_of(words[0]) {
        None => Err(RequestError::HTTPMethodError),
        Some(m) => Ok(
            RequestView {
                method: m,
                path: words[1],
                version: version_of(split(words[2], seq!['/'])[1]),
                headers: lines_headers(lines, e),
                body: request_body(lines, e).unwrap(),
            },
        ),
    }
}

/// `first_blank` reports -1 or an empty line at `k` or after it.
proof fn lemma_first_blank(lines: Seq<Seq<char>>, k: int)
    requires
        k >= 0,
    ensures
        first_blank(lines, k) == -1 || (k <= first_blank(lines, k) < lines.len() && lines[first_blank(
            lines,
            k,
        )].len() == 0),
    decreases lines.len() - k,
{
    if k < lines.len() && lines[k].len() > 0 {
        lemma_first_blank(lines, k + 1);
    }
}

/// The ranges `lines` of `cs` hold the lines of the text `cs`.
pub open spec fn lines_of(cs: Seq<char>, lines: Seq<(usize, usize)>) -> bool {
    &&& lines.len() == request_lines(cs).len()
    &&& forall|j: int|
        0 <= j < lines.len() ==> (#[trigger] lines[j]).0 <= lines[j].1 <= cs.len()
            && cs.subrange(lines[j].0 as int, lines[j].1 as int) == request_lines(cs)[j]
}

/// The lines of the text `s` (whose characters `cs` holds), as ranges.
fn line_ranges(cs: &Vec<char>) -> (lines: Vec<(usize, usize)>)
    ensures
        lines_of(cs@, lines@),
{
    let crlf_chars = vec!['\r', '\n'];
    assert(crlf_chars@ =~= crlf());
    assert(cs@.subrange(0, cs@.len() as int) =~= cs@);
    split_in(cs, 0, cs.len(), &crlf_chars)
}

/// Reads the header section: the headers and the index of the empty line
/// that ends it, or `None` when there is no such line or a header line has no
/// colon.
fn scan_headers(s: &str, cs: &Vec<char>, lines: &Vec<(usize, usize)>) -> (r: Option<
    (StringMap, usize),
>)
    requires
        cs@ == s@,
        lines_of(cs@, lines@),
    ensures
        r is Some <==> head_readable(cs@),
        r matches Some((h, k)) ==> k == first_blank(request_lines(cs@), 1) && k < lines@.len()
            && h@ == text_headers(cs@),
{
    let ghost ls = request_lines(cs@);
    let ghost e = first_blank(ls, 1);
    let nlines = lines.len();
    let mut headers = StringMap::new();
    let colon = vec![':'];
    assert(header_pairs(ls, 1) =~= Seq::<(Seq<char>, Seq<char>)>::empty());
    proof {
        lemma_first_blank(ls, 1);
    }
    let mut k: usize = 1;
    while k < nlines && lines[k].0 != lines[k].1
        invariant
            s@ == cs@,
            nlines == lines@.len(),
            lines_of(cs@, lines@),
            ls == request_lines(cs@),
            colon@ == seq![':'],
            e == first_blank(ls, 1),
            1 <= k,
            first_blank(ls, k as int) == e,
            forall|j: int| 1 <= j < k ==> (#[trigger] split_once(ls[j], seq![':'])) is Some,
            headers@ == pairs_map(header_pairs(ls, k as int)),
        decreases nlines - k,
    {
        let (a, b) = lines[k];
        let ghost line = ls[k as int];
        assert(line.len() > 0);
        let c = find_in(cs, a, b, &colon);
        proof {
            lemma_find(line, seq![':']);
            lemma_first_blank(ls, k + 1);
        }
        let c = match c {
            Some(c) => c,
            None => {
                assert(split_once(ls[k as int], seq![':']) is None);
                return None;
            },
        };
        let name = piece(s, cs, a, c);
        let value = piece(s, cs, c + 1, b);
        assert(name@ =~= header_entry(line).0);
        assert(value@ =~= header_entry(line).1);
        assert(header_pairs(ls, k + 1) =~= header_pairs(ls, k as int).push(header_entry(line)));
        proof {
            crate::strmap::lemma_pairs_map_push(header_pairs(ls, k as int), name@, value@);
        }
        headers.insert(name, value);
        k += 1;
    }
    if k >= nlines {
        return None;
    }
    Some((headers, k))
}

/// The headers of the text of a request, or `None` when its header section
/// does not end with an empty line or one of its lines has no colon.
pub fn read_headers(text: &str) -> (r: Option<StringMap>)
    ensures
        r is Some <==> head_readable(text@),
        r matches Some(h) ==> h@ == text_headers(text@),
{
    let cs = chars_of(text);
    let lines = line_ranges(&cs);
    match scan_headers(text, &cs, &lines) {
        Some((h, _)) => Some(h),
        None => None,
    }
}

/// What the `Content-Length` header of `headers` declares.
pub fn content_length(headers: &StringMap) -> (r: Option<Option<usize>>)
    ensures
        r == declared_length(headers@),
{
    let cl_name = "Content-Length";
    match headers.get(cl_name) {
        None => Some(None),
        Some(value) => {
            let vcs = chars_of(value.as_str());
            let (ta, tb) = trim_in(&vcs, 0, vcs.len());
            assert(vcs@.subrange(0, vcs@.len() as int) =~= vcs@);
            match parse_usize_in(&vcs, ta, tb) {
                Some(n) => Some(Some(n)),
                None => None,
            }
        },
    }
}

/// The text of a request line for `method`, `path` and `version`, followed
/// by the empty line that ends a header section without headers.
pub open spec fn request_line_text(method: HTTPMethod, path: Seq<char>, version: HTTPVersion) -> Seq<
    char,
> {
    method_text(method) + seq![' '] + path + seq![' '] + "HTTP/"@ + version_text(version) + crlf()
        + crlf()
}

/// The name of a method holds no space, line break or `/`, and names that
/// method.
proof fn lemma_method_text(m: HTTPMethod)
    ensures
        forall|i: int|
            0 <= i < method_text(m).len() ==> #[trigger] method_text(m)[i] != ' '
                && method_text(m)[i] != '\r' && method_text(m)[i] != '\n',
        method_of(method_text(m)) == Some(m),
{
    reveal_strlit("GET");
    reveal_strlit("POST");
    reveal_strlit("DELETE");
    reveal_strlit("PUT");
    assert("GET"@[0] != "POST"@[0]);
    assert("GET"@[0] != "DELETE"@[0]);
    assert("POST"@.len() != "DELETE"@.len());
    assert("PUT"@.len() != "GET"@.len() || "PUT"@[0] != "GET"@[0]);
    assert("PUT"@.len() != "POST"@.len());
    assert("PUT"@.len() != "DELETE"@.len());
}

/// A version number holds no space, line break or `/`, and names that
/// version.
proof fn lemma_version_text(v: HTTPVersion)
    ensures
        forall|i: int|
            0 <= i < version_text(v).len() ==> #[trigger] version_text(v)[i] != ' '
                && version_text(v)[i] != '\r' && version_text(v)[i] != '\n' && version_text(v)[i]
                != '/',
        version_of(version_text(v)) == v,
{
    reveal_strlit("1.1");
    reveal_strlit("1.0");
    assert("1.0"@[2] != "1.1"@[2]);
}

/// Parsing a request line that names a method, a path and a version gives
/// them back, with no headers and no body: the parser undoes the writing of a
/// request line, for every path without spaces and line breaks.
pub proof fn law_parse_request_line(method: HTTPMethod, path: Seq<char>, version: HTTPVersion)
    requires
        forall|i: int| 0 <= i < path.len() ==> path[i] != ' ',
        no_match_before(path, crlf(), path.len() + 1int),
    ensures
        request_readable(request_line_text(method, path, version)),
        parsed_request(request_line_text(method, path, version)) == Ok::<RequestView, RequestError>(
            RequestView {
                method,
                path,
                version,
                headers: Map::empty(),
                body: None,
            },
        ),
{
    reveal_strlit("HTTP/");
    lemma_method_text(method);
    lemma_version_text(version);
    let mt = method_text(method);
    let vt = version_text(version);
    let h = "HTTP/"@;
    let r2 = h + vt;
    let r1 = path + seq![' '] + r2;
    let line = mt + seq![' '] + r1;
    let t = request_line_text(method, path, version);
    assert(t =~= line + crlf() + crlf());

    // The lines: the request line and two empty ones.
    let nl = line.len() as int;
    assert forall|i: int| 0 <= i < nl implies !#[trigger] matches_at(t, crlf(), i) by {
        lemma_matches_pair(t, '\r', '\n', i);
        if t[i] == '\r' && t[i + 1] == '\n' {
            let k = i - mt.len() - 1;
            assert(0 <= k < path.len());
            if k + 1 < path.len() {
                lemma_matches_pair(path, '\r', '\n', k);
                assert(path[k] == '\r' && path[k + 1] == '\n');
            } else {
                assert(t[i + 1] == ' ');
            }
        }
    }
    lemma_matches_pair(t, '\r', '\n', nl);
    lemma_split_at(t, crlf(), nl);
    assert(t.subrange(0, nl) =~= line);
    let rest = t.subrange(nl + 2, t.len() as int);
    assert(rest =~= crlf());
    lemma_matches_pair(rest, '\r', '\n', 0);
    lemma_split_at(rest, crlf(), 0);
    assert(rest.subrange(0, 0) =~= Seq::<char>::empty());
    assert(rest.subrange(2, 2) =~= Seq::<char>::empty());
    lemma_split_whole(Seq::<char>::empty(), crlf());
    let lines = request_lines(t);
    assert(lines =~= seq![line, Seq::<char>::empty(), Seq::<char>::empty()]);
    assert(first_blank(lines, 1) == 1);
    assert(header_pairs(lines, 1) =~= Seq::<(Seq<char>, Seq<char>)>::empty());
    assert(lines_headers(lines, 1) =~= Map::<Seq<char>, Seq<char>>::empty());

    // The words of the request line.
    let sp = seq![' '];
    assert forall|i: int| 0 <= i < mt.len() implies !#[trigger] matches_at(line, sp, i) by {
        lemma_matches_char(line, ' ', i);
        assert(line[i] == mt[i]);
    }
    lemma_matches_char(line, ' ', mt.len() as int);
    lemma_split_at(line, sp, mt.len() as int);
    assert(line.subrange(0, mt.len() as int) =~= mt);
    assert(line.subrange(mt.len() + 1int, nl) =~= r1);
    assert forall|i: int| 0 <= i < path.len() implies !#[trigger] matches_at(r1, sp, i) by {
        lemma_matches_char(r1, ' ', i);
        assert(r1[i] == path[i]);
    }
    lemma_matches_char(r1, ' ', path.len() as int);
    lemma_split_at(r1, sp, path.len() as int);
    assert(r1.subrange(0, path.len() as int) =~= path);
    assert(r1.subrange(path.len() + 1int, r1.len() as int) =~= r2);
    assert forall|i: int| 0 <= i < r2.len() + 1 implies !#[trigger] matches_at(r2, sp, i) by {
        lemma_matches_char(r2, ' ', i);
    }
    lemma_split_whole(r2, sp);
    let words = request_words(lines);
    assert(words =~= seq![mt, path, r2]);

    // The version.
    let sl = seq!['/'];
    assert forall|i: int| 0 <= i < 4 implies !#[trigger] matches_at(r2, sl, i) by {
        lemma_matches_char(r2, '/', i);
    }
    lemma_matches_char(r2, '/', 4);
    lemma_split_at(r2, sl, 4);
    assert(r2.subrange(5, r2.len() as int) =~= vt);
    assert forall|i: int| 0 <= i < vt.len() + 1 implies !#[trigger] matches_at(vt, sl, i) by {
        lemma_matches_char(vt, '/', i);
    }
    lemma_split_whole(vt, sl);
    assert(split(r2, sl)[1] == vt);
}

/// The first word of a request line names a method exactly: `GET`, `POST`,
/// `DELETE` and `PUT` name those methods, each method's name is that word,
/// and every other word names none.
pub proof fn law_method_of(word: Seq<char>)
    ensures
        method_of(word) == Some(HTTPMethod::GET) <==> word == "GET"@,
        method_of(word) == Some(HTTPMethod::POST) <==> word == "POST"@,
        method_of(word) == Some(HTTPMethod::DELETE) <==> word == "DELETE"@,
        method_of(word) == Some(HTTPMethod::PUT) <==> word == "PUT"@,
        method_of(word) is None <==> (word != "GET"@ && word != "POST"@ && word != "DELETE"@
            && word != "PUT"@),
        method_text(HTTPMethod::GET) == "GET"@,
        method_text(HTTPMethod::POST) == "POST"@,
        method_text(HTTPMethod::DELETE) == "DELETE"@,
        method_text(HTTPMethod::PUT) == "PUT"@,
{
    reveal_strlit("GET");
    reveal_strlit("POST");
    reveal_strlit("DELETE");
    reveal_strlit("PUT");
    assert("GET"@[0] != "POST"@[0]);
    assert("GET"@[0] != "DELETE"@[0]);
    assert("GET"@[0] != "PUT"@[0] || "GET"@[1] != "PUT"@[1]);
    assert("POST"@.len() != "DELETE"@.len());
    assert("POST"@.len() != "PUT"@.len());
    assert("DELETE"@.len() != "PUT"@.len());
}

/// A readable request is accepted exactly when the first word of its
/// request line names a method, and then with the method that word names;
/// with any other word it is refused with `HTTPMethodError`.
pub proof fn law_request_method(t: Seq<char>)
    requires
        request_readable(t),
    ensures
        ({
            let word = request_words(request_lines(t))[0];
            &&& parsed_request(t) matches Ok(v) ==> word == method_text(v.method)
            &&& (parsed_request(t) == Err::<RequestView, RequestError>(RequestError::HTTPMethodError)
                <==> (word != "GET"@ && word != "POST"@ && word != "DELETE"@ && word != "PUT"@))
            &&& (parsed_request(t) is Ok <==> !(word != "GET"@ && word != "POST"@ && word
                != "DELETE"@ && word != "PUT"@))
        }),
{
    let word = request_words(request_lines(t))[0];
    law_method_of(word);
}

/// A gathered body holds at least the bytes asked for.
proof fn lemma_gather_body_size(data: Seq<char>, rest: Seq<Seq<char>>, size: nat)
    ensures
        gather_body(data, rest, size) matches Some(b) ==> utf8_len(b) >= size,
    decreases rest.len(),
{
    if utf8_len(data) < size && rest.len() > 0 {
        lemma_gather_body_size(data + rest[0], rest.drop_first(), size);
    }
}

/// A parsed request has a body exactly when it declares `Content-Length`,
/// and then the body holds at least that many bytes.
pub proof fn law_body_follows_content_length(t: Seq<char>)
    requires
        request_readable(t),
        parsed_request(t) is Ok,
    ensures
        match parsed_request(t) {
            Ok(v) => match declared_length(v.headers) {
                Some(None) => v.body is None,
                Some(Some(n)) => v.body matches Some(b) && utf8_len(b) >= n,
                None => false,
            },
            Err(_) => false,
        },
{
    let lines = request_lines(t);
    let e = first_blank(lines, 1);
    lemma_gather_body_size(Seq::empty(), lines.subrange(e + 1, lines.len() as int), match declared_length(lines_headers(lines, e)) {
        Some(Some(n)) => n as nat,
        _ => 0,
    });
}

/// Parses the text of a request, as `parse_request` does, and gives `None`
/// for a text that cannot be read as a request.
pub fn try_parse_request(request: String) -> (r: Option<Result<Request, RequestError>>)
    ensures
        r is None <==> !request_readable(request@),
        match r {
            Some(Ok(req)) => parsed_request(request@) == Ok::<RequestView, RequestError>(req@),
            Some(Err(e)) => parsed_request(request@) == Err::<RequestView, RequestError>(e),
            None => true,
        },
{
    let s = request.as_str();
    let cs = chars_of(s);
    let ghost t = request@;
    let lines = line_ranges(&cs);
    let ghost ls = request_lines(t);
    let ghost e = first_blank(ls, 1);
    let nlines = lines.len();

    // The header section.
    let (headers, k) = match scan_headers(s, &cs, &lines) {
        Some(hk) => hk,
        None => {
            return None;
        },
    };

    // The request line.
    let (la, lb) = lines[0];
    let sp = vec![' '];
    assert(sp@ =~= seq![' ']);
    let words = split_in(&cs, la, lb, &sp);
    let ghost ws = request_words(ls);
    if words.len() < 3 {
        return None;
    }
    let (ma, mb) = words[0];
    let (pa, pb) = words[1];
    let (va, vb) = words[2];
    let sl = vec!['/'];
    assert(sl@ =~= seq!['/']);
    let vparts = split_in(&cs, va, vb, &sl);
    if vparts.len() < 2 {
        return None;
    }
    let (na, nb) = vparts[1];
    let path = piece(s, &cs, pa, pb);
    let get_chars = vec!['G', 'E', 'T'];
    let post_chars = vec!['P', 'O', 'S', 'T'];
    let delete_chars = vec!['D', 'E', 'L', 'E', 'T', 'E'];
    let put_chars = vec!['P', 'U', 'T'];
    let v11 = vec!['1', '.', '1'];
    proof {
        reveal_strlit("GET");
        reveal_strlit("POST");
        reveal_strlit("DELETE");
        reveal_strlit("PUT");
        reveal_strlit("1.1");
        assert(get_chars@ =~= "GET"@);
        assert(post_chars@ =~= "POST"@);
        assert(delete_chars@ =~= "DELETE"@);
        assert(put_chars@ =~= "PUT"@);
        assert(v11@ =~= "1.1"@);
    }
    let method = if range_is(&cs, ma, mb, &get_chars) {
        HTTPMethod::GET
    } else if range_is(&cs, ma, mb, &post_chars) {
        HTTPMethod::POST
    } else if range_is(&cs, ma, mb, &delete_chars) {
        HTTPMethod::DELETE
    } else if range_is(&cs, ma, mb, &put_chars) {
        HTTPMethod::PUT
    } else {
        return Some(Err(RequestError::HTTPMethodError));
    };
    let version = if range_is(&cs, na, nb, &v11) {
        HTTPVersion::HTTP11
    } else {
        HTTPVersion::HTTP10
    };

    // The body.
    let body = match content_length(&headers) {
        None => {
            return None;
        },
        Some(None) => None,
        Some(Some(size)) => {
            let mut data = String::new();
            let mut total: u128 = 0;
            let mut idx = k + 1;
            let ghost rest_all = ls.subrange(e + 1, ls.len() as int);
            assert(Seq::<char>::empty() =~= data@);
            assert(ls.subrange(idx as int, ls.len() as int) =~= rest_all);
            assert(method_of(ws[0]) is Some);
            assert(gather_body(Seq::empty(), rest_all, size as nat) is None ==> !request_readable(
                t,
            ));
            while total < size as u128
                invariant
                    t == request@,
                    gather_body(Seq::empty(), rest_all, size as nat) is None ==> !request_readable(
                        t,
                    ),
                    s@ == t,
                    nlines == lines@.len(),
                    lines_of(cs@, lines@),
                    ls == request_lines(t),
                    cs@ == t,
                    e + 1 <= idx <= ls.len(),
                    gather_body(Seq::empty(), rest_all, size as nat) == gather_body(
                        data@,
                        ls.subrange(idx as int, ls.len() as int),
                        size as nat,
                    ),
                    total == utf8_len(data@),
                    total <= 5 * (usize::MAX as u128),
                decreases ls.len() - idx,
            {
                if idx >= nlines {
                    assert(ls.subrange(idx as int, ls.len() as int) =~= Seq::<Seq<char>>::empty());
                    assert(utf8_len(data@) < size);
                    assert(gather_body(data@, Seq::<Seq<char>>::empty(), size as nat) is None);
                    assert(gather_body(Seq::empty(), rest_all, size as nat) is None);
                    return None;
                }
                let (a, b) = lines[idx];
                let part = piece(s, &cs, a, b);
                let w = utf8_len_in(&cs, a, b);
                let ghost old_data = data@;
                assert(ls.subrange(idx as int, ls.len() as int).drop_first() =~= ls.subrange(
                    idx + 1,
                    ls.len() as int,
                ));
                assert(ls.subrange(idx as int, ls.len() as int)[0] == ls[idx as int]);
                data.append(part.as_str());
                proof {
                    lemma_utf8_len_concat(old_data, part@);
                }
                total = total + w;
                idx += 1;
            }
            Some(data)
        },
    };
    Some(Ok(Request::new(method, path, version, headers, body)))
}

/// Parses the text of a request: the request line, the headers up to the
/// first empty line and, when `Content-Length` is given, the body. A request
/// with a method other than `GET`, `POST`, `DELETE` and `PUT` is refused.
pub fn parse_request(request: String) -> (r: Result<Request, RequestError>)
    requires
        request_readable(request@),
    ensures
        match r {
            Ok(req) => parsed_request(request@) == Ok::<RequestView, RequestError>(req@),
            Err(e) => parsed_request(request@) == Err::<RequestView, RequestError>(e),
        },
{
    try_parse_request(request).unwrap()
}

} // verus!
