//! The server: its routes, and what it does with the text of a request —
//! call a handler, or fall back to a static file, refused when it lies outside
//! the directory of static files.
use vstd::prelude::*;

use crate::handler::{
    self, lookup, register, target_args, target_is_readable, target_path, target_readable,
    Router, RouterError,
};
use crate::request::{
    opt_text, parsed_request, request_readable, try_parse_request, HTTPMethod, RequestError,
    RequestView,
};
use crate::text::{chars_of, piece, range_is, split, split_in};

verus! {

broadcast use vstd::string::group_string_axioms;

/// A server: a name and a table of routes.
pub struct Server<H> {
    name: String,
    router: Router<H>,
}

/// What the server does with the text of a request.
pub enum Plan<H> {
    /// The text cannot be read as a request.
    Unreadable,
    /// The request was refused.
    Refused(RequestError),
    /// A handler is registered for the request: call it.
    Handle(H, handler::Request),
    /// No handler is registered: serve the static file at this path, relative
    /// to the directory of static files.
    Static(handler::Request, String),
}

/// The request that a handler gets for the parsed request `v`.
pub open spec fn handler_request_of(v: RequestView, req: handler::Request) -> bool {
    &&& req.method == v.method
    &&& req.path@ == target_path(v.path)
    &&& req.version == v.version
    &&& req.headers@ == v.headers
    &&& opt_text(req.body) == v.body
    &&& req.args@ == target_args(v.path)
}

/// The text `t` holds a request whose target can be read, and `req` is what
/// handlers see of it.
pub open spec fn accepted(t: Seq<char>, req: handler::Request) -> bool {
    &&& request_readable(t)
    &&& match parsed_request(t) {
        Ok(v) => target_readable(v.path) && handler_request_of(v, req),
        Err(_) => false,
    }
}

/// `s` without its leading `/`s.
pub open spec fn strip_slashes(s: Seq<char>) -> Seq<char>
    decreases s.len(),
{
    if s.len() > 0 && s[0] == '/' {
        strip_slashes(s.drop_first())
    } else {
        s
    }
}

/// The file that a path names, relative to the directory of static files:
/// `index.html` for `/`, else the path without its leading `/`s.
pub open spec fn static_file(path: Seq<char>) -> Seq<char> {
    if path == "/"@ {
        "index.html"@
    } else {
        strip_slashes(path)
    }
}

impl<H> Server<H> {
    /// The routes by method and path.
    pub closed spec fn routes(&self) -> Map<HTTPMethod, Map<Seq<char>, H>> {
        self.router.routes()
    }

    /// The directory of static files.
    pub closed spec fn static_root(&self) -> Seq<char> {
        self.router.static_root()
    }

    /// The name of the server.
    pub closed spec fn name_text(&self) -> Seq<char> {
        self.name@
    }

    /// A server named `name` without routes, serving static files from
    /// `./public`.
    pub fn new(name: &str) -> (s: Self)
        ensures
            s.name_text() == name@,
            s.routes() == Map::<HTTPMethod, Map<Seq<char>, H>>::empty(),
            s.static_root() == "./public"@,
    {
        Server { name: name.to_owned(), router: Router::new() }
    }

    /// The name of the server.
    pub fn name(&self) -> (n: &String)
        ensures
            n@ == self.name_text(),
    {
        &self.name
    }

    /// The directory of static files.
    pub fn static_dir(&self) -> (d: &String)
        ensures
            d@ == self.static_root(),
    {
        self.router.static_dir()
    }

    /// Makes `handler` the only `GET` route, for `path`.
    pub fn get(&mut self, path: &str, handler: H)
        ensures
            final(self).routes() == register(old(self).routes(), HTTPMethod::GET, path@, handler),
            final(self).name_text() == old(self).name_text(),
            final(self).static_root() == old(self).static_root(),
    {
        self.router.regiser(HTTPMethod::GET, path, handler);
    }

    /// The handler registered for `method` and `path`.
    pub fn look_up(&self, method: &HTTPMethod, path: &str) -> (r: Result<H, RouterError>) where
        H: Copy,

        ensures
            match r {
                Ok(h) => lookup(self.routes(), *method, path@) == Some(h),
                Err(e) => e == RouterError::NotFound && lookup(self.routes(), *method, path@)
                    is None,
            },
    {
        self.router.look_up(method, path)
    }

    /// What to do with the text of a request: parse it, read the query string
    /// of its target, and call the handler registered for its method and
    /// path, or else serve a static file.
    pub fn plan(&self, text: String) -> (p: Plan<H>) where H: Copy
        ensures
            match p {
                Plan::Unreadable => !request_readable(text@) || match parsed_request(text@) {
                    Ok(v) => !target_readable(v.path),
                    Err(_) => false,
                },
                Plan::Refused(e) => request_readable(text@) && parsed_request(text@) == Err::<
                    RequestView,
                    RequestError,
                >(e),
                Plan::Handle(h, req) => accepted(text@, req) && lookup(
                    self.routes(),
                    req.method,
                    req.path@,
                ) == Some(h),
                Plan::Static(req, file) => accepted(text@, req) && lookup(
                    self.routes(),
                    req.method,
                    req.path@,
                ) is None && file@ == static_file(req.path@),
            },
    {
        let r = match try_parse_request(text) {
            None => {
                return Plan::Unreadable;
            },
            Some(Err(e)) => {
                return Plan::Refused(e);
            },
            Some(Ok(r)) => r,
        };
        if !target_is_readable(r.path.as_str()) {
            return Plan::Unreadable;
        }
        let req = handler::Request::new(r.method, r.path, r.version, r.headers, r.body);
        match self.router.look_up(&req.method, req.path.as_str()) {
            Ok(h) => Plan::Handle(h, req),
            Err(_) => {
                let file = static_file_of(req.path.as_str());
                Plan::Static(req, file)
            },
        }
    }
}

/// The file that `path` names, relative to the directory of static files.
pub fn static_file_of(path: &str) -> (f: String)
    ensures
        f@ == static_file(path@),
{
    let cs = chars_of(path);
    let n = cs.len();
    proof {
        reveal_strlit("/");
        reveal_strlit("index.html");
    }
    if n == 1 && cs[0] == '/' {
        assert(path@ =~= "/"@);
        return String::from_str("index.html");
    }
    assert(path@ != "/"@) by {
        if path@ == "/"@ {
            assert(cs@[0] == '/');
        }
    }
    let mut i: usize = 0;
    assert(cs@.subrange(0, n as int) =~= cs@);
    while i < n && cs[i] == '/'
        invariant
            i <= n,
            n == cs@.len(),
            strip_slashes(cs@) == strip_slashes(cs@.subrange(i as int, n as int)),
        decreases n - i,
    {
        assert(cs@.subrange(i as int, n as int).drop_first() =~= cs@.subrange(i + 1, n as int));
        i += 1;
    }
    piece(path, &cs, i, n)
}

/// The file that a path names never begins with `/`, so that it stays inside
/// the directory of static files when joined to it.
pub proof fn law_static_file_is_relative(path: Seq<char>)
    ensures
        !(static_file(path).len() > 0 && static_file(path)[0] == '/'),
{
    reveal_strlit("index.html");
    lemma_strip_slashes(path);
}

/// No `/` begins a text whose leading `/`s are stripped.
proof fn lemma_strip_slashes(s: Seq<char>)
    ensures
        !(strip_slashes(s).len() > 0 && strip_slashes(s)[0] == '/'),
    decreases s.len(),
{
    if s.len() > 0 && s[0] == '/' {
        lemma_strip_slashes(s.drop_first());
    }
}

/// The pieces of `pieces` that are not empty, in order.
pub open spec fn nonempty_pieces(pieces: Seq<Seq<char>>) -> Seq<Seq<char>>
    decreases pieces.len(),
{
    if pieces.len() == 0 {
        Seq::empty()
    } else if pieces.last().len() == 0 {
        nonempty_pieces(pieces.drop_last())
    } else {
        nonempty_pieces(pieces.drop_last()).push(pieces.last())
    }
}

/// The names that make up a path: the non-empty pieces between its `/`s.
pub open spec fn path_names(p: Seq<char>) -> Seq<Seq<char>> {
    nonempty_pieces(split(p, seq!['/']))
}

/// The path begins with `/`.
pub open spec fn is_absolute(p: Seq<char>) -> bool {
    p.len() > 0 && p[0] == '/'
}

/// The path `file` lies in the directory `root`: both are absolute or both
/// are relative, and the names of `root` begin the names of `file` (which is
/// what `Path::starts_with` decides for paths without `.` or `..` names, as
/// canonical paths are).
pub open spec fn within_root(root: Seq<char>, file: Seq<char>) -> bool {
    &&& is_absolute(root) == is_absolute(file)
    &&& path_names(root).len() <= path_names(file).len()
    &&& path_names(file).subrange(0, path_names(root).len() as int) == path_names(root)
}

/// The non-empty ranges among `rs`, as in `nonempty_pieces`.
fn nonempty_ranges(rs: &Vec<(usize, usize)>, Ghost(cs): Ghost<Seq<char>>, Ghost(pieces): Ghost<
    Seq<Seq<char>>,
>) -> (out: Vec<(usize, usize)>)
    requires
        rs@.len() == pieces.len(),
        forall|k: int|
            0 <= k < rs@.len() ==> (#[trigger] rs@[k]).0 <= rs@[k].1 <= cs.len() && cs.subrange(
                rs@[k].0 as int,
                rs@[k].1 as int,
            ) == pieces[k],
    ensures
        out@.len() == nonempty_pieces(pieces).len(),
        forall|k: int|
            0 <= k < out@.len() ==> (#[trigger] out@[k]).0 <= out@[k].1 <= cs.len() && cs.subrange(
                out@[k].0 as int,
                out@[k].1 as int,
            ) == nonempty_pieces(pieces)[k],
{
    let mut out: Vec<(usize, usize)> = Vec::new();
    let mut i: usize = 0;
    assert(pieces.subrange(0, 0) =~= Seq::<Seq<char>>::empty());
    while i < rs.len()
        invariant
            i <= rs@.len(),
            rs@.len() == pieces.len(),
            forall|k: int|
                0 <= k < rs@.len() ==> (#[trigger] rs@[k]).0 <= rs@[k].1 <= cs.len()
                    && cs.subrange(rs@[k].0 as int, rs@[k].1 as int) == pieces[k],
            out@.len() == nonempty_pieces(pieces.subrange(0, i as int)).len(),
            forall|k: int|
                0 <= k < out@.len() ==> (#[trigger] out@[k]).0 <= out@[k].1 <= cs.len()
                    && cs.subrange(out@[k].0 as int, out@[k].1 as int) == nonempty_pieces(
                    pieces.subrange(0, i as int),
                )[k],
        decreases rs@.len() - i,
    {
        let (a, b) = rs[i];
        let ghost before = pieces.subrange(0, i as int);
        let ghost after = pieces.subrange(0, i + 1);
        assert(after.drop_last() =~= before);
        assert(after.last() == pieces[i as int]);
        if a < b {
            out.push((a, b));
        }
        i += 1;
    }
    assert(pieces.subrange(0, rs@.len() as int) =~= pieces);
    out
}

/// The names of a path as ranges of `cs`.
fn name_ranges(cs: &Vec<char>) -> (out: Vec<(usize, usize)>)
    ensures
        out@.len() == path_names(cs@).len(),
        forall|k: int|
            0 <= k < out@.len() ==> (#[trigger] out@[k]).0 <= out@[k].1 <= cs@.len()
                && cs@.subrange(out@[k].0 as int, out@[k].1 as int) == path_names(cs@)[k],
{
    let sl = vec!['/'];
    assert(sl@ =~= seq!['/']);
    assert(cs@.subrange(0, cs@.len() as int) =~= cs@);
    let rs = split_in(cs, 0, cs.len(), &sl);
    nonempty_ranges(&rs, Ghost(cs@), Ghost(split(cs@, seq!['/'])))
}

/// Whether two ranges of two texts hold the same text.
fn same_text(xs: &Vec<char>, a: (usize, usize), ys: &Vec<char>, b: (usize, usize)) -> (r: bool)
    requires
        a.0 <= a.1 <= xs@.len(),
        b.0 <= b.1 <= ys@.len(),
    ensures
        r == (xs@.subrange(a.0 as int, a.1 as int) == ys@.subrange(b.0 as int, b.1 as int)),
{
    if a.1 - a.0 != b.1 - b.0 {
        assert(xs@.subrange(a.0 as int, a.1 as int).len() != ys@.subrange(b.0 as int, b.1 as int).len());
        return false;
    }
    let n = a.1 - a.0;
    let ghost xsub = xs@.subrange(a.0 as int, a.1 as int);
    let ghost ysub = ys@.subrange(b.0 as int, b.1 as int);
    let mut i: usize = 0;
    while i < n
        invariant
            i <= n,
            n == a.1 - a.0,
            n == b.1 - b.0,
            a.1 <= xs@.len(),
            b.1 <= ys@.len(),
            xsub == xs@.subrange(a.0 as int, a.1 as int),
            ysub == ys@.subrange(b.0 as int, b.1 as int),
            forall|j: int| 0 <= j < i ==> #[trigger] xsub[j] == ysub[j],
        decreases n - i,
    {
        if xs[a.0 + i] != ys[b.0 + i] {
            assert(xsub[i as int] != ysub[i as int]);
            return false;
        }
        assert(xsub[i as int] == ysub[i as int]);
        i += 1;
    }
    assert(xs@.subrange(a.0 as int, a.1 as int) =~= ys@.subrange(b.0 as int, b.1 as int));
    true
}

/// Whether the file `file` lies in the directory `root` (both canonical
/// paths): a file outside is refused.
pub fn is_within_root(root: &str, file: &str) -> (r: bool)
    ensures
        r == within_root(root@, file@),
{
    let rc = chars_of(root);
    let fc = chars_of(file);
    let ra = rc.len() > 0 && rc[0] == '/';
    let fa = fc.len() > 0 && fc[0] == '/';
    if ra != fa {
        return false;
    }
    let rn = name_ranges(&rc);
    let fnames = name_ranges(&fc);
    if rn.len() > fnames.len() {
        return false;
    }
    let ghost rp = path_names(root@);
    let ghost fp = path_names(file@);
    let mut i: usize = 0;
    while i < rn.len()
        invariant
            i <= rn@.len(),
            rn@.len() == rp.len(),
            fnames@.len() == fp.len(),
            rp.len() <= fp.len(),
            rp == path_names(rc@),
            fp == path_names(fc@),
            rc@ == root@,
            fc@ == file@,
            forall|k: int|
                0 <= k < rn@.len() ==> (#[trigger] rn@[k]).0 <= rn@[k].1 <= rc@.len()
                    && rc@.subrange(rn@[k].0 as int, rn@[k].1 as int) == rp[k],
            forall|k: int|
                0 <= k < fnames@.len() ==> (#[trigger] fnames@[k]).0 <= fnames@[k].1 <= fc@.len()
                    && fc@.subrange(fnames@[k].0 as int, fnames@[k].1 as int) == fp[k],
            forall|k: int| 0 <= k < i ==> fp[k] == rp[k],
        decreases rn@.len() - i,
    {
        if !same_text(&rc, rn[i], &fc, fnames[i]) {
            assert(fp.subrange(0, rp.len() as int)[i as int] != rp[i as int]);
            return false;
        }
        i += 1;
    }
    assert(fp.subrange(0, rp.len() as int) =~= rp);
    true
}

/// What the checks on a static file decide.
#[derive(PartialEq, Eq, Structural, Clone, Copy, Debug)]
pub enum StaticCheck {
    /// The directory or the file could not be resolved: not found.
    NotFound,
    /// The file lies outside the directory of static files: refused.
    Forbidden,
    /// The file lies inside the directory: serve it if it exists.
    Allowed,
}

/// Decides on a static file from the resolved (canonical) path of the
/// directory of static files and of the file, `None` where a path could not
/// be resolved.
pub fn static_check(root: Option<&str>, file: Option<&str>) -> (r: StaticCheck)
    ensures
        r == (match (root, file) {
            (Some(d), Some(f)) => if within_root(d@, f@) {
                StaticCheck::Allowed
            } else {
                StaticCheck::Forbidden
            },
            _ => StaticCheck::NotFound,
        }),
{
    match (root, file) {
        (Some(d), Some(f)) => if is_within_root(d, f) {
            StaticCheck::Allowed
        } else {
            StaticCheck::Forbidden
        },
        _ => StaticCheck::NotFound,
    }
}

/// The content type that the extension of `ext` gives.
pub open spec fn extension_type(ext: Seq<char>) -> Seq<char> {
    if ext == "html"@ {
        "text/html"@
    } else if ext == "css"@ {
        "text/css"@
    } else if ext == "js"@ {
        "text/javascript"@
    } else if ext == "txt"@ {
        "text/plain"@
    } else {
        "application/octet-stream"@
    }
}

/// The index of the last `c` in `s`, or -1 when `s` holds no `c`.
pub open spec fn last_index_of(s: Seq<char>, c: char) -> int
    decreases s.len(),
{
    if s.len() == 0 {
        -1
    } else if s.last() == c {
        s.len() - 1
    } else {
        last_index_of(s.drop_last(), c)
    }
}

/// The name of the file at `path`: the text after its last `/`.
pub open spec fn file_name(path: Seq<char>) -> Seq<char> {
    path.subrange(last_index_of(path, '/') + 1, path.len() as int)
}

/// The extension of a file name: the text after its last `.`, or `None` when
/// the name holds no `.`.
pub open spec fn extension(name: Seq<char>) -> Option<Seq<char>> {
    let d = last_index_of(name, '.');
    if d < 0 {
        None
    } else {
        Some(name.subrange(d + 1, name.len() as int))
    }
}

/// The content type of the file at `path`, by the extension of its file
/// name; `application/octet-stream` for a file name without `.` in a path
/// that holds a `.` elsewhere, and `None` for a path without any `.`.
pub open spec fn file_content_type(path: Seq<char>) -> Option<Seq<char>> {
    match extension(file_name(path)) {
        Some(ext) => Some(extension_type(ext)),
        None => if last_index_of(path, '.') >= 0 {
            Some("application/octet-stream"@)
        } else {
            None
        },
    }
}

/// Characters after the last `c` do not move it.
proof fn lemma_last_index_suffix(a: Seq<char>, b: Seq<char>, c: char)
    requires
        forall|i: int| 0 <= i < b.len() ==> b[i] != c,
    ensures
        last_index_of(a + b, c) == last_index_of(a, c),
    decreases b.len(),
{
    if b.len() == 0 {
        assert(a + b =~= a);
    } else {
        assert((a + b).drop_last() =~= a + b.drop_last());
        assert((a + b).last() == b.last());
        lemma_last_index_suffix(a, b.drop_last(), c);
    }
}

/// The content type of a file is chosen by its whole extension: for a path
/// that ends in `.` and an extension (the text after the last `.`, which
/// holds no `/`), it is `text/html`, `text/css`, `text/javascript` or
/// `text/plain` exactly when the extension is `html`, `css`, `js` or `txt`,
/// and `application/octet-stream` for every other extension.
pub proof fn law_content_type_by_extension(dir: Seq<char>, ext: Seq<char>)
    requires
        forall|i: int| 0 <= i < ext.len() ==> ext[i] != '.' && ext[i] != '/',
    ensures
        ({
            let r = file_content_type(dir + seq!['.'] + ext);
            &&& (r == Some("text/html"@) <==> ext == "html"@)
            &&& (r == Some("text/css"@) <==> ext == "css"@)
            &&& (r == Some("text/javascript"@) <==> ext == "js"@)
            &&& (r == Some("text/plain"@) <==> ext == "txt"@)
            &&& (r == Some("application/octet-stream"@) <==> (ext != "html"@ && ext != "css"@
                && ext != "js"@ && ext != "txt"@))
        }),
{
    let pre = dir + seq!['.'];
    let path = pre + ext;
    assert(dir + seq!['.'] + ext == path);
    lemma_last_index_suffix(pre, ext, '.');
    assert(pre.drop_last() =~= dir);
    assert(last_index_of(pre, '.') == dir.len());
    lemma_last_index_suffix(pre, ext, '/');
    assert(last_index_of(pre, '/') == last_index_of(dir, '/'));
    let j = last_index_of(dir, '/');
    lemma_last_index_range(dir, '/');
    let name = path.subrange(j + 1, path.len() as int);
    let head = dir.subrange(j + 1, dir.len() as int) + seq!['.'];
    assert(name =~= head + ext);
    lemma_last_index_suffix(head, ext, '.');
    assert(head.drop_last() =~= dir.subrange(j + 1, dir.len() as int));
    assert(last_index_of(head, '.') == head.len() - 1);
    assert(name.subrange(head.len() as int, name.len() as int) =~= ext);
    assert(extension(name) == Some(ext));
    reveal_strlit("html");
    reveal_strlit("css");
    reveal_strlit("js");
    reveal_strlit("txt");
    reveal_strlit("text/html");
    reveal_strlit("text/css");
    reveal_strlit("text/javascript");
    reveal_strlit("text/plain");
    reveal_strlit("application/octet-stream");
    assert("text/html"@.len() != "text/css"@.len());
    assert("text/html"@[5] != "text/plain"@[5]);
    assert("text/css"@.len() != "text/plain"@.len());
    assert("text/javascript"@.len() != "text/html"@.len());
    assert("text/javascript"@.len() != "text/css"@.len());
    assert("text/javascript"@.len() != "text/plain"@.len());
    assert("application/octet-stream"@[0] != "text/html"@[0]);
    assert("application/octet-stream"@[0] != "text/css"@[0]);
    assert("application/octet-stream"@[0] != "text/javascript"@[0]);
    assert("application/octet-stream"@[0] != "text/plain"@[0]);
}

/// `last_index_of` is -1 or an index of the text.
proof fn lemma_last_index_range(s: Seq<char>, c: char)
    ensures
        -1 <= last_index_of(s, c) < s.len(),
    decreases s.len(),
{
    if s.len() > 0 && s.last() != c {
        lemma_last_index_range(s.drop_last(), c);
    }
}

/// The last `c` in `cs[a..b]`, as an index into `cs`.
fn last_index_in(cs: &Vec<char>, a: usize, b: usize, c: char) -> (r: Option<usize>)
    requires
        a <= b <= cs@.len(),
    ensures
        match r {
            Some(i) => a <= i < b && last_index_of(cs@.subrange(a as int, b as int), c) == i - a,
            None => last_index_of(cs@.subrange(a as int, b as int), c) == -1,
        },
{
    let mut j = b;
    while j > a && cs[j - 1] != c
        invariant
            a <= j <= b,
            b <= cs@.len(),
            last_index_of(cs@.subrange(a as int, b as int), c) == last_index_of(
                cs@.subrange(a as int, j as int),
                c,
            ),
        decreases j - a,
    {
        assert(cs@.subrange(a as int, j as int).drop_last() =~= cs@.subrange(a as int, j - 1));
        j -= 1;
    }
    if j == a {
        None
    } else {
        Some(j - 1)
    }
}

/// The content type of the file at `path`: by the text after the last `.` of
/// its file name; `application/octet-stream` when only another part of the
/// path holds a `.`, and `None` when the path holds none.
pub fn content_type_for(path: &str) -> (r: Option<&'static str>)
    ensures
        match r {
            Some(t) => file_content_type(path@) == Some(t@),
            None => file_content_type(path@) is None,
        },
{
    let cs = chars_of(path);
    let n = cs.len();
    assert(cs@.subrange(0, n as int) =~= cs@);
    let start = match last_index_in(&cs, 0, n, '/') {
        None => 0,
        Some(k) => k + 1,
    };
    let ghost name = cs@.subrange(start as int, n as int);
    assert(file_name(path@) == name);
    let d = match last_index_in(&cs, start, n, '.') {
        None => {
            return match last_index_in(&cs, 0, n, '.') {
                Some(_) => Some("application/octet-stream"),
                None => None,
            };
        },
        Some(d) => d,
    };
    let ghost ext = cs@.subrange(d + 1, n as int);
    assert(name.subrange(d - start + 1, name.len() as int) =~= ext);
    assert(extension(name) == Some(ext));
    let html = vec!['h', 't', 'm', 'l'];
    let css = vec!['c', 's', 's'];
    let js = vec!['j', 's'];
    let txt = vec!['t', 'x', 't'];
    proof {
        reveal_strlit("html");
        reveal_strlit("css");
        reveal_strlit("js");
        reveal_strlit("txt");
        assert(html@ =~= "html"@);
        assert(css@ =~= "css"@);
        assert(js@ =~= "js"@);
        assert(txt@ =~= "txt"@);
    }
    if range_is(&cs, d + 1, n, &html) {
        Some("text/html")
    } else if range_is(&cs, d + 1, n, &css) {
        Some("text/css")
    } else if range_is(&cs, d + 1, n, &js) {
        Some("text/javascript")
    } else if range_is(&cs, d + 1, n, &txt) {
        Some("text/plain")
    } else {
        Some("application/octet-stream")
    }
}

/// The content type of the answers of handlers and of the refusals.
pub fn plain_text() -> (t: String)
    ensures
        t@ == "text/plain"@,
{
    String::from_str("text/plain")
}

/// The answer when no handler and no static file is found.
pub fn not_found() -> (r: handler::Response)
    ensures
        r.body@ == "Not Found"@,
        r.status_code == 404,
{
    handler::Response::new("Not Found", 404)
}

/// The answer when the static file lies outside the directory of static
/// files.
pub fn forbidden() -> (r: handler::Response)
    ensures
        r.body@ == "Permission Error"@,
        r.status_code == 403,
{
    handler::Response::new("Permission Error", 403)
}

} // verus!
