//! What handlers see and give back, and the table that routes a method and a
//! path to a handler.
use vstd::prelude::*;

use crate::request::{HTTPMethod, HTTPVersion};
use crate::strmap::{pairs_map, StringMap};
use crate::text::{
    chars_of, find, find_in, lemma_find, lemma_find_none, matches_at, piece, split, split_in,
    split_once,
};

verus! {

broadcast use vstd::string::group_string_axioms;

/// What a handler answers: a body and a status code.
pub struct Response {
    pub body: String,
    pub status_code: u16,
}

/// A request as handlers see it, with the arguments of its query string.
pub struct Request {
    pub method: HTTPMethod,
    pub path: String,
    pub version: HTTPVersion,
    pub headers: StringMap,
    pub body: Option<String>,
    /// The arguments of the query string.
    pub args: StringMap,
}

/// The path and the query string of a request target: the text before and
/// after its first `?`, or `None` when there is no `?`.
pub open spec fn target_parts(target: Seq<char>) -> Option<(Seq<char>, Seq<char>)> {
    split_once(target, seq!['?'])
}

/// The path of a request target, without its query string.
pub open spec fn target_path(target: Seq<char>) -> Seq<char> {
    match target_parts(target) {
        Some((p, _)) => p,
        None => target,
    }
}

/// The parameters of a query string: the pieces between its `&`s.
pub open spec fn query_params(query: Seq<char>) -> Seq<Seq<char>> {
    split(query, seq!['&'])
}

/// The name and the value of a parameter: its first and second piece
/// between `=`s (further pieces are dropped).
pub open spec fn param_entry(param: Seq<char>) -> (Seq<char>, Seq<char>) {
    let parts = split(param, seq!['=']);
    (parts[0], parts[1])
}

/// Every parameter of the query string of `target` holds a `=`.
pub open spec fn target_readable(target: Seq<char>) -> bool {
    target_parts(target) is Some ==> query_readable(target_parts(target).unwrap().1)
}

/// Every parameter of a query string holds a `=`.
pub open spec fn query_readable(query: Seq<char>) -> bool {
    forall|i: int|
        0 <= i < query_params(query).len() ==> split(#[trigger] query_params(query)[i], seq!['=']).len()
            >= 2
}

/// The arguments of the query string of `target`, in order; a later
/// parameter with the same name replaces an earlier one.
pub open spec fn target_arg_pairs(target: Seq<char>) -> Seq<(Seq<char>, Seq<char>)> {
    match target_parts(target) {
        None => Seq::empty(),
        Some((_, q)) => query_params(q).map_values(|p: Seq<char>| param_entry(p)),
    }
}

/// The arguments of the query string of `target` as a map.
pub open spec fn target_args(target: Seq<char>) -> Map<Seq<char>, Seq<char>> {
    pairs_map(target_arg_pairs(target))
}

/// A split has at least two pieces exactly when the separator occurs.
proof fn lemma_split_two(p: Seq<char>, c: char)
    ensures
        split(p, seq![c]).len() >= 2 <==> find(p, seq![c]) >= 0,
{
    lemma_find(p, seq![c]);
    let i = find(p, seq![c]);
    if i >= 0 {
        let rest = p.subrange(i + 1, p.len() as int);
        assert(split(p, seq![c]) == seq![p.subrange(0, i)] + split(rest, seq![c]));
        assert(split(rest, seq![c]).len() >= 1);
    }
}

/// A target can be read exactly when it has no query string or every
/// `&`-separated parameter of its query string (the text after its first
/// `?`) holds a `=`; empty names and values are no obstacle.
pub proof fn law_target_readable(target: Seq<char>)
    ensures
        target_readable(target) <==> (split_once(target, seq!['?']) is None || forall|i: int|
            0 <= i < split(split_once(target, seq!['?']).unwrap().1, seq!['&']).len() ==> find(
                #[trigger] split(split_once(target, seq!['?']).unwrap().1, seq!['&'])[i],
                seq!['='],
            ) >= 0),
{
    if split_once(target, seq!['?']) is Some {
        let q = split_once(target, seq!['?']).unwrap().1;
        assert forall|i: int| 0 <= i < split(q, seq!['&']).len() implies (split(
            #[trigger] split(q, seq!['&'])[i],
            seq!['='],
        ).len() >= 2 <==> find(split(q, seq!['&'])[i], seq!['=']) >= 0) by {
            lemma_split_two(split(q, seq!['&'])[i], '=');
        }
        assert(query_params(q) == split(q, seq!['&']));
        if query_readable(q) {
            assert forall|i: int| 0 <= i < split(q, seq!['&']).len() implies find(
                #[trigger] split(q, seq!['&'])[i],
                seq!['='],
            ) >= 0 by {
                assert(split(query_params(q)[i], seq!['=']).len() >= 2);
            }
        }
        if forall|i: int|
            0 <= i < split(q, seq!['&']).len() ==> find(
                #[trigger] split(q, seq!['&'])[i],
                seq!['='],
            ) >= 0 {
            assert forall|i: int| 0 <= i < query_params(q).len() implies split(
                #[trigger] query_params(q)[i],
                seq!['='],
            ).len() >= 2 by {
                assert(find(split(q, seq!['&'])[i], seq!['=']) >= 0);
            }
        }
    }
}

/// Every parameter of the query string lands in the arguments: there is one
/// entry for each `&`-separated parameter of the text after the first `?`, in
/// order, made of the first and second pieces between the parameter's `=`s;
/// each such name is an argument, mapped to the value of the last parameter
/// with that name, and no other name is. A target without `?` has no
/// arguments.
pub proof fn law_every_parameter_lands(target: Seq<char>)
    ensures
        split_once(target, seq!['?']) is None ==> target_args(target) == Map::<
            Seq<char>,
            Seq<char>,
        >::empty(),
        split_once(target, seq!['?']) is Some ==> ({
            let ps = split(split_once(target, seq!['?']).unwrap().1, seq!['&']);
            &&& target_arg_pairs(target).len() == ps.len()
            &&& forall|i: int|
                0 <= i < ps.len() ==> #[trigger] target_arg_pairs(target)[i] == (
                    split(ps[i], seq!['='])[0],
                    split(ps[i], seq!['='])[1],
                )
            &&& forall|i: int|
                0 <= i < ps.len() ==> target_args(target).contains_key(
                    split(#[trigger] ps[i], seq!['='])[0],
                )
            &&& forall|i: int|
                0 <= i < ps.len() && (forall|j: int|
                    i < j < ps.len() ==> split(#[trigger] ps[j], seq!['='])[0] != split(
                        ps[i],
                        seq!['='],
                    )[0]) ==> target_args(target)[split(#[trigger] ps[i], seq!['='])[0]] == split(
                    ps[i],
                    seq!['='],
                )[1]
            &&& forall|k: Seq<char>|
                #[trigger] target_args(target).contains_key(k) ==> exists|i: int|
                    0 <= i < ps.len() && split(#[trigger] ps[i], seq!['='])[0] == k
        }),
{
    if split_once(target, seq!['?']) is None {
        assert(target_arg_pairs(target) =~= Seq::<(Seq<char>, Seq<char>)>::empty());
        assert(target_args(target) =~= Map::<Seq<char>, Seq<char>>::empty());
    } else {
        let ps = split(split_once(target, seq!['?']).unwrap().1, seq!['&']);
        let pairs = target_arg_pairs(target);
        assert(pairs == ps.map_values(|p: Seq<char>| param_entry(p)));
        assert forall|i: int| 0 <= i < ps.len() implies target_args(target).contains_key(
            split(#[trigger] ps[i], seq!['='])[0],
        ) by {
            crate::strmap::lemma_pairs_map_last(pairs, i);
            assert(pairs[i] == param_entry(ps[i]));
        }
        assert forall|i: int|
            0 <= i < ps.len() && (forall|j: int|
                i < j < ps.len() ==> split(#[trigger] ps[j], seq!['='])[0] != split(
                    ps[i],
                    seq!['='],
                )[0]) implies target_args(target)[split(#[trigger] ps[i], seq!['='])[0]] == split(
            ps[i],
            seq!['='],
        )[1] by {
            assert forall|j: int| i < j < pairs.len() implies (#[trigger] pairs[j]).0 != pairs[i].0 by {
                assert(pairs[j] == param_entry(ps[j]));
                assert(pairs[i] == param_entry(ps[i]));
                assert(split(ps[j], seq!['='])[0] != split(ps[i], seq!['='])[0]);
            }
            crate::strmap::lemma_pairs_map_last(pairs, i);
            assert(pairs[i] == param_entry(ps[i]));
        }
        assert forall|k: Seq<char>| #[trigger] target_args(target).contains_key(k) implies exists|i: int|
            0 <= i < ps.len() && split(#[trigger] ps[i], seq!['='])[0] == k by {
            crate::strmap::lemma_pairs_map_keys(pairs, k);
            let i = choose|i: int| 0 <= i < pairs.len() && (#[trigger] pairs[i]).0 == k;
            assert(pairs[i] == param_entry(ps[i]));
            assert(split(ps[i], seq!['='])[0] == k);
        }
    }
}

/// Whether every parameter of the query string of `target` holds a `=`, so
/// that `Request::new` can read it.
pub fn target_is_readable(target: &str) -> (b: bool)
    ensures
        b == target_readable(target@),
{
    let cs = chars_of(target);
    let n = cs.len();
    let qmark = vec!['?'];
    assert(qmark@ =~= seq!['?']);
    assert(cs@.subrange(0, n as int) =~= cs@);
    let q = match find_in(&cs, 0, n, &qmark) {
        Some(q) => q,
        None => {
            return true;
        },
    };
    let amp = vec!['&'];
    let eq = vec!['='];
    assert(amp@ =~= seq!['&']);
    assert(eq@ =~= seq!['=']);
    let ghost query = cs@.subrange(q + 1, n as int);
    assert(target_parts(target@) == Some((cs@.subrange(0, q as int), query)));
    let params = split_in(&cs, q + 1, n, &amp);
    let ghost ps = query_params(query);
    let np = params.len();
    let mut i: usize = 0;
    while i < np
        invariant
            np == params@.len(),
            params@.len() == ps.len(),
            ps == query_params(query),
            eq@ == seq!['='],
            q < n,
            n == cs@.len(),
            forall|k: int|
                0 <= k < params@.len() ==> (#[trigger] params@[k]).0 <= params@[k].1 <= cs@.len()
                    && cs@.subrange(params@[k].0 as int, params@[k].1 as int) == ps[k],
            i <= np,
            forall|k: int| 0 <= k < i ==> split(#[trigger] ps[k], seq!['=']).len() >= 2,
            cs@ == target@,
            target_parts(target@) == Some((cs@.subrange(0, q as int), query)),
        decreases np - i,
    {
        let (a, b) = params[i];
        let parts = split_in(&cs, a, b, &eq);
        if parts.len() < 2 {
            assert(split(query_params(query)[i as int], seq!['=']).len() < 2);
            return false;
        }
        i += 1;
    }
    assert(query_readable(query));
    true
}

impl Request {
    /// A request for handlers: the query string is cut off the path and read
    /// into `args`.
    pub fn new(
        method: HTTPMethod,
        path: String,
        version: HTTPVersion,
        headers: StringMap,
        body: Option<String>,
    ) -> (r: Self)
        requires
            target_readable(path@),
        ensures
            r.method == method,
            r.path@ == target_path(path@),
            r.version == version,
            r.headers == headers,
            r.body == body,
            r.args@ == target_args(path@),
    {
        let mut args = StringMap::new();
        let s = path.as_str();
        let cs = chars_of(s);
        let n = cs.len();
        let qmark = vec!['?'];
        assert(qmark@ =~= seq!['?']);
        assert(cs@.subrange(0, n as int) =~= cs@);
        let q = match find_in(&cs, 0, n, &qmark) {
            Some(q) => q,
            None => {
                assert(target_arg_pairs(path@) =~= Seq::<(Seq<char>, Seq<char>)>::empty());
                return Request { method, path, version, headers, body, args };
            },
        };
        let amp = vec!['&'];
        let eq = vec!['='];
        assert(amp@ =~= seq!['&']);
        assert(eq@ =~= seq!['=']);
        let ghost query = cs@.subrange(q + 1, n as int);
        assert(target_parts(path@) == Some((cs@.subrange(0, q as int), query)));
        let params = split_in(&cs, q + 1, n, &amp);
        let ghost ps = query_params(query);
        let np = params.len();
        let mut i: usize = 0;
        assert(ps.subrange(0, 0).map_values(|p: Seq<char>| param_entry(p)) =~= Seq::<
            (Seq<char>, Seq<char>),
        >::empty());
        while i < np
            invariant
                s@ == path@,
                cs@ == s@,
                q < n,
                n == cs@.len(),
                np == params@.len(),
                params@.len() == ps.len(),
                ps == query_params(query),
                eq@ == seq!['='],
                query_readable(query),
                target_parts(path@) == Some((cs@.subrange(0, q as int), query)),
                forall|k: int|
                    0 <= k < params@.len() ==> (#[trigger] params@[k]).0 <= params@[k].1
                        <= cs@.len() && cs@.subrange(params@[k].0 as int, params@[k].1 as int)
                        == ps[k],
                i <= np,
                args@ == pairs_map(
                    ps.subrange(0, i as int).map_values(|p: Seq<char>| param_entry(p)),
                ),
            decreases np - i,
        {
            let (a, b) = params[i];
            let ghost param = ps[i as int];
            assert(query_params(query)[i as int] == param);
            assert(split(param, seq!['=']).len() >= 2);
            let parts = split_in(&cs, a, b, &eq);
            let (ka, kb) = parts[0];
            let (va, vb) = parts[1];
            let key = piece(s, &cs, ka, kb);
            let value = piece(s, &cs, va, vb);
            assert((key@, value@) == param_entry(param));
            assert(ps.subrange(0, i + 1).map_values(|p: Seq<char>| param_entry(p)) =~= ps.subrange(
                0,
                i as int,
            ).map_values(|p: Seq<char>| param_entry(p)).push(param_entry(param)));
            proof {
                crate::strmap::lemma_pairs_map_push(
                    ps.subrange(0, i as int).map_values(|p: Seq<char>| param_entry(p)),
                    key@,
                    value@,
                );
            }
            args.insert(key, value);
            i += 1;
        }
        assert(ps.subrange(0, np as int) =~= ps);
        let route = piece(s, &cs, 0, q);
        Request { method, path: route, version, headers, body, args }
    }
}

impl Response {
    /// A response with the given body and status code.
    pub fn new(body: &str, status_code: u16) -> (r: Self)
        ensures
            r.body@ == body@,
            r.status_code == status_code,
    {
        Response { body: body.to_owned(), status_code }
    }
}

/// Why a route was not found.
#[derive(PartialEq, Eq, Structural, Clone, Copy, Debug)]
pub enum RouterError {
    NotFound,
}

/// The routes of one method: at most one path with its handler.
pub open spec fn slot_routes<H>(slot: Option<(String, H)>) -> Map<Seq<char>, H> {
    match slot {
        Some((p, h)) => Map::empty().insert(p@, h),
        None => Map::empty(),
    }
}

/// The route table after registering `h` for `method` and `path`: the
/// method's routes become that one route.
pub open spec fn register<H>(
    routes: Map<HTTPMethod, Map<Seq<char>, H>>,
    method: HTTPMethod,
    path: Seq<char>,
    h: H,
) -> Map<HTTPMethod, Map<Seq<char>, H>> {
    routes.insert(method, Map::empty().insert(path, h))
}

/// The handler that the route table gives for `method` and `path`.
pub open spec fn lookup<H>(routes: Map<HTTPMethod, Map<Seq<char>, H>>, method: HTTPMethod, path: Seq<
    char,
>) -> Option<H> {
    if routes.contains_key(method) && routes[method].contains_key(path) {
        Some(routes[method][path])
    } else {
        None
    }
}

/// The table of routes, by method and path, and the directory of static
/// files.
pub struct Router<H> {
    static_dir: String,
    get_route: Option<(String, H)>,
    post_route: Option<(String, H)>,
    delete_route: Option<(String, H)>,
    put_route: Option<(String, H)>,
}

impl<H> Router<H> {
    /// The directory of static files.
    pub closed spec fn static_root(&self) -> Seq<char> {
        self.static_dir@
    }

    /// The directory of static files.
    pub fn static_dir(&self) -> (d: &String)
        ensures
            d@ == self.static_root(),
    {
        &self.static_dir
    }

    /// The route slot of a method.
    closed spec fn slot(&self, m: HTTPMethod) -> Option<(String, H)> {
        match m {
            HTTPMethod::GET => self.get_route,
            HTTPMethod::POST => self.post_route,
            HTTPMethod::DELETE => self.delete_route,
            HTTPMethod::PUT => self.put_route,
        }
    }

    /// The routes by method and path.
    pub closed spec fn routes(&self) -> Map<HTTPMethod, Map<Seq<char>, H>> {
        Map::new(|m: HTTPMethod| self.slot(m) is Some, |m: HTTPMethod| slot_routes(self.slot(m)))
    }

    /// An empty table that serves static files from `./public`.
    pub fn new() -> (r: Self)
        ensures
            r.static_root() == "./public"@,
            r.routes() == Map::<HTTPMethod, Map<Seq<char>, H>>::empty(),
    {
        let r = Router {
            static_dir: String::from_str("./public"),
            get_route: None,
            post_route: None,
            delete_route: None,
            put_route: None,
        };
        assert(r.routes() =~= Map::<HTTPMethod, Map<Seq<char>, H>>::empty());
        r
    }

    /// Makes `handler` the only route of `method`, for `path`.
    pub fn regiser(&mut self, method: HTTPMethod, path: &str, handler: H)
        ensures
            final(self).routes() == register(old(self).routes(), method, path@, handler),
            final(self).static_root() == old(self).static_root(),
    {
        let slot = Some((path.to_owned(), handler));
        match method {
            HTTPMethod::GET => {
                self.get_route = slot;
            },
            HTTPMethod::POST => {
                self.post_route = slot;
            },
            HTTPMethod::DELETE => {
                self.delete_route = slot;
            },
            HTTPMethod::PUT => {
                self.put_route = slot;
            },
        }
        assert(self.routes() =~= register(old(self).routes(), method, path@, handler));
    }

    /// The handler registered for `method` and `path`.
    pub fn look_up(&self, method: &HTTPMethod, path: &str) -> (r: Result<H, RouterError>) where
        H: Copy,

        ensures
            match r {
                Ok(h) => lookup(self.routes(), *method, path@) == Some(h),
                Err(e) => e == RouterError::NotFound && lookup(self.routes(), *method, path@)
                    is None,
            },
    {
        let slot = match method {
            HTTPMethod::GET => &self.get_route,
            HTTPMethod::POST => &self.post_route,
            HTTPMethod::DELETE => &self.delete_route,
            HTTPMethod::PUT => &self.put_route,
        };
        match slot {
            Some((p, h)) => {
                let wanted = path.to_owned();
                if *p == wanted {
                    Ok(*h)
                } else {
                    Err(RouterError::NotFound)
                }
            },
            None => Err(RouterError::NotFound),
        }
    }
}

/// The path that handlers see holds no `?`: the query string is cut off at
/// the first one.
pub proof fn law_path_has_no_query(target: Seq<char>)
    ensures
        find(target_path(target), seq!['?']) == -1,
{
    let q = seq!['?'];
    lemma_find(target, q);
    let i = find(target, q);
    if i >= 0 {
        let p = target.subrange(0, i);
        assert forall|j: int| 0 <= j < p.len() + 1 implies !#[trigger] matches_at(p, q, j) by {
            if matches_at(p, q, j) {
                assert(target.subrange(j, j + 1) =~= p.subrange(j, j + 1));
                assert(matches_at(target, q, j));
            }
        }
        lemma_find_none(p, q);
    }
}

/// Registering a route and looking it up: the route is found; every other
/// path of that method is not found any more, since a registration replaces
/// the method's routes; the routes of the other method stay as they were.
pub proof fn law_register_look_up<H>(
    routes: Map<HTTPMethod, Map<Seq<char>, H>>,
    method: HTTPMethod,
    path: Seq<char>,
    h: H,
    other_method: HTTPMethod,
    other_path: Seq<char>,
)
    ensures
        lookup(register(routes, method, path, h), method, path) == Some(h),
        other_path != path ==> lookup(register(routes, method, path, h), method, other_path)
            is None,
        other_method != method ==> lookup(register(routes, method, path, h), other_method, other_path)
            == lookup(routes, other_method, other_path),
{
}

} // verus!
