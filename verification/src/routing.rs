//! Route tables and request dispatch: a router holds `(template, handler)`
//! pairs and hands a request to the first template that its path matches.
use vstd::prelude::*;
use vstd::string::StringSliceAdditionalSpecFns;
use vstd::utf8::{decode_utf8, valid_utf8};
use crate::parser::{URLInfo, opt_text, parse_path, parse_query_spec, route_match};
use crate::text::{chars_of, lemma_trim_idempotent, string_of, trim_start_char, trim_start_char_bound, trim_white_space, trim_white_space_bounds, white_space};

verus! {

// ---------------------------------------------------------------------------
// Route tables
// ---------------------------------------------------------------------------

/// Routes gathered in registration order.
pub struct Routes<H> {
    routes: Vec<(&'static str, H)>,
}

impl<H> Routes<H> {
    /// The routes, in registration order.
    pub closed spec fn entries(&self) -> Seq<(&'static str, H)> {
        self.routes@
    }

    /// No routes.
    pub fn new() -> (r: Self)
        ensures
            r.entries() == Seq::<(&'static str, H)>::empty(),
    {
        Routes { routes: Vec::new() }
    }

    /// These routes followed by `route` with its handler.
    pub fn add(self, route: &'static str, handler: H) -> (r: Self)
        ensures
            r.entries() == self.entries().push((route, handler)),
    {
        let mut routes = self.routes;
        routes.push((route, handler));
        Routes { routes }
    }

    /// These routes followed by those of `other`.
    pub fn merge(self, other: Routes<H>) -> (r: Self)
        ensures
            r.entries() == self.entries() + other.entries(),
    {
        let mut routes = self.routes;
        let mut more = other.routes;
        routes.append(&mut more);
        Routes { routes }
    }

    /// The routes, in registration order.
    pub fn build(self) -> (r: Vec<(&'static str, H)>)
        ensures
            r@ == self.entries(),
    {
        self.routes
    }
}

/// The first position from `i` on whose template `path` matches.
pub open spec fn first_match_from<H>(routes: Seq<(&'static str, H)>, path: Seq<char>, i: int) -> Option<int>
    decreases routes.len() - i,
{
    if i < 0 || i >= routes.len() {
        None
    } else if route_match(path, routes[i].0@) is Some {
        Some(i)
    } else {
        first_match_from(routes, path, i + 1)
    }
}

/// The first route whose template `path` matches.
pub open spec fn first_match<H>(routes: Seq<(&'static str, H)>, path: Seq<char>) -> Option<int> {
    first_match_from(routes, path, 0)
}

proof fn lemma_first_match_shift<H>(a: Seq<(&'static str, H)>, b: Seq<(&'static str, H)>, path: Seq<char>, j: int)
    requires
        0 <= j <= b.len(),
    ensures
        first_match_from(a + b, path, a.len() + j) == match first_match_from(b, path, j) {
            Some(k) => Some(k + a.len()),
            None => None::<int>,
        },
    decreases b.len() - j,
{
    if j < b.len() {
        assert((a + b)[a.len() + j] == b[j]);
        lemma_first_match_shift(a, b, path, j + 1);
    }
}

proof fn lemma_first_match_prefix<H>(a: Seq<(&'static str, H)>, b: Seq<(&'static str, H)>, path: Seq<char>, i: int)
    requires
        0 <= i <= a.len(),
    ensures
        first_match_from(a + b, path, i) == match first_match_from(a, path, i) {
            Some(k) => Some(k),
            None => match first_match(b, path) {
                Some(k) => Some(k + a.len()),
                None => None::<int>,
            },
        },
    decreases a.len() - i,
{
    if i < a.len() {
        assert((a + b)[i] == a[i]);
        lemma_first_match_prefix(a, b, path, i + 1);
    } else {
        lemma_first_match_shift(a, b, path, 0);
    }
}

/// In merged routes, a path goes to the first route of the first table that
/// it matches, and only where none there matches to the second table's.
pub proof fn law_merge_precedence<H>(a: Routes<H>, b: Routes<H>, merged: Routes<H>, path: Seq<char>)
    requires
        merged.entries() == a.entries() + b.entries(),
    ensures
        first_match(merged.entries(), path) == match first_match(a.entries(), path) {
            Some(k) => Some(k),
            None => match first_match(b.entries(), path) {
                Some(k) => Some(k + a.entries().len()),
                None => None::<int>,
            },
        },
{
    lemma_first_match_prefix(a.entries(), b.entries(), path, 0);
}

/// A router: routes tried in order.
pub struct Router<H> {
    routes: Vec<(&'static str, H)>,
}

impl<H> Router<H> {
    /// The routes, in the order they are tried.
    pub closed spec fn entries(&self) -> Seq<(&'static str, H)> {
        self.routes@
    }

    /// A router trying `routes` in order.
    pub fn register(routes: Vec<(&'static str, H)>) -> (r: Router<H>)
        ensures
            r.entries() == routes@,
    {
        Router { routes }
    }

    /// The number of routes.
    pub fn len(&self) -> (n: usize)
        ensures
            n == self.entries().len(),
    {
        self.routes.len()
    }

    /// The handler of the route at `i`.
    pub fn handler(&self, i: usize) -> (h: &H)
        requires
            i < self.entries().len(),
        ensures
            *h == self.entries()[i as int].1,
    {
        &self.routes[i].1
    }

    /// The first route whose template `path` matches, with the parameters it
    /// binds and the values of `querys`; `None` where no template matches.
    pub fn verify(&self, path: &str, querys: Option<&str>) -> (r: Option<(usize, URLInfo)>)
        ensures
            r is None == (first_match(self.entries(), path@) is None),
            r matches Some(m) ==> first_match(self.entries(), path@) == Some(m.0 as int)
                && route_match(path@, self.entries()[m.0 as int].0@) == Some(m.1.params_view())
                && m.1.querys_view() == parse_query_spec(opt_text(querys)),
    {
        let mut i: usize = 0;
        while i < self.routes.len()
            invariant
                i <= self.routes.len(),
                first_match(self.entries(), path@) == first_match_from(self.entries(), path@, i as int),
            decreases self.routes.len() - i,
        {
            let route: &str = self.routes[i].0;
            match parse_path(path, route, querys) {
                Some(info) => {
                    return Some((i, info));
                },
                None => {},
            }
            i += 1;
        }
        None
    }

    /// Where the request `target` goes: its route and match, or `None`.
    pub fn dispatch(&self, target: &RequestTarget) -> (r: Option<(usize, URLInfo)>)
        ensures
            r is None == (first_match(self.entries(), target.path@) is None),
            r matches Some(m) ==> first_match(self.entries(), target.path@) == Some(m.0 as int)
                && route_match(target.path@, self.entries()[m.0 as int].0@) == Some(m.1.params_view())
                && m.1.querys_view() == parse_query_spec(target.query_view()),
    {
        let q: Option<&str> = match &target.query {
            Some(s) => Some(s.as_str()),
            None => None,
        };
        self.verify(target.path.as_str(), q)
    }
}

// ---------------------------------------------------------------------------
// Paths
// ---------------------------------------------------------------------------

/// `s` without its leading `/`, trimmed of white space, behind a single `/`.
pub open spec fn normalized_path(s: Seq<char>) -> Seq<char> {
    seq!['/'] + trim_white_space(trim_start_char(s, '/'))
}

/// Normalizes a request path: leading `/` removed, white space trimmed, one
/// `/` put in front.
pub fn normalize_path(path: &str) -> (r: String)
    ensures
        r@ == normalized_path(path@),
{
    let v = chars_of(path);
    let a = trim_start_char_bound(&v, 0, v.len(), '/');
    let (b, c) = trim_white_space_bounds(&v, a, v.len());
    let mut out: Vec<char> = Vec::new();
    out.push('/');
    let mut i = b;
    while i < c
        invariant
            b <= i <= c <= v.len(),
            out@ == seq!['/'] + v@.subrange(b as int, i as int),
        decreases c - i,
    {
        out.push(v[i]);
        assert(v@.subrange(b as int, i + 1) =~= v@.subrange(b as int, i as int).push(v@[i as int]));
        i += 1;
    }
    proof {
        assert(v@.subrange(0, v@.len() as int) =~= path@);
    }
    string_of(&out)
}

/// A normalized path starts with `/`; normalizing it again changes nothing,
/// except where the trimmed text itself starts with `/` (as for `" /a"`),
/// which a second pass strips.
pub proof fn law_normalize_path_idempotent(s: Seq<char>)
    requires
        trim_white_space(trim_start_char(s, '/')).len() == 0 || trim_white_space(
            trim_start_char(s, '/'),
        )[0] != '/',
    ensures
        normalized_path(s)[0] == '/',
        normalized_path(normalized_path(s)) == normalized_path(s),
{
    let x = trim_white_space(trim_start_char(s, '/'));
    let n = normalized_path(s);
    assert(n.drop_first() =~= x);
    assert(trim_start_char(n, '/') == trim_start_char(x, '/'));
    assert(trim_start_char(x, '/') == x);
    lemma_trim_idempotent(trim_start_char(s, '/'), white_space());
}

/// The text of the answer to a request that no route takes.
pub fn not_found_message(url: &str) -> (r: String)
    ensures
        r@ == "CP request failed on: "@ + url@,
{
    let mut s = String::from_str("CP request failed on: ");
    s.append(url);
    s
}

// ---------------------------------------------------------------------------
// Request targets
// ---------------------------------------------------------------------------

/// The path and query that a request is routed by.
pub struct RequestTarget {
    pub path: String,
    pub query: Option<String>,
}

impl RequestTarget {
    /// The view of the query.
    pub open spec fn query_view(&self) -> Option<Seq<char>> {
        match self.query {
            Some(q) => Some(q@),
            None => None,
        }
    }
}

/// The value of an ASCII hexadecimal digit (what `char::to_digit(16)` gives).
pub open spec fn hex_value(b: u8) -> Option<u8> {
    if 48 <= b <= 57 {
        Some((b - 48) as u8)
    } else if 97 <= b <= 102 {
        Some((b - 87) as u8)
    } else if 65 <= b <= 70 {
        Some((b - 55) as u8)
    } else {
        None
    }
}

/// Percent-decoding of bytes: each `%` followed by two hexadecimal digits
/// stands for the byte they spell; every other byte stands for itself.
pub open spec fn percent_decode_bytes(b: Seq<u8>) -> Seq<u8>
    decreases b.len(),
{
    if b.len() == 0 {
        Seq::empty()
    } else if b[0] == 37 && b.len() >= 3 && hex_value(b[1]) is Some && hex_value(b[2]) is Some {
        seq![(hex_value(b[1])->0 * 16 + hex_value(b[2])->0) as u8] + percent_decode_bytes(b.skip(3))
    } else {
        seq![b[0]] + percent_decode_bytes(b.skip(1))
    }
}

/// The text that percent-decoding `s` gives, where its bytes are valid UTF-8.
pub open spec fn percent_decoded(s: &str) -> Option<Seq<char>> {
    let bytes = percent_decode_bytes(s.spec_bytes());
    if valid_utf8(bytes) {
        Some(decode_utf8(bytes))
    } else {
        None
    }
}

/// Percent-decoding changes nothing in bytes that hold no `%`.
pub proof fn law_percent_decode_plain(b: Seq<u8>)
    requires
        !b.contains(37u8),
    ensures
        percent_decode_bytes(b) == b,
    decreases b.len(),
{
    if b.len() > 0 {
        assert(b[0] != 37u8);
        assert(!b.skip(1).contains(37u8)) by {
            if b.skip(1).contains(37u8) {
                let j = choose|j: int| 0 <= j < b.skip(1).len() && b.skip(1)[j] == 37u8;
                assert(b[j + 1] == 37u8);
            }
        }
        law_percent_decode_plain(b.skip(1));
        assert(b =~= seq![b[0]] + b.skip(1));
    }
}

/// A request URL whose text holds no `%` decodes to itself.
pub proof fn law_percent_decoded_plain_text(s: &str)
    requires
        !s.spec_bytes().contains(37u8),
    ensures
        percent_decoded(s) == Some(s@),
{
    law_percent_decode_plain(s.spec_bytes());
    vstd::utf8::encode_utf8_valid_utf8(s@);
    vstd::utf8::encode_utf8_decode_utf8(s@);
}

/// Whether `url::Url::options().parse` accepts the text.
pub uninterp spec fn url_accepts(input: Seq<char>) -> bool;

/// The `path()` of the URL that `url::Url::options().parse` makes of the text.
pub uninterp spec fn url_path(input: Seq<char>) -> Seq<char>;

/// The `query()` of the URL that `url::Url::options().parse` makes of the text.
pub uninterp spec fn url_query(input: Seq<char>) -> Option<Seq<char>>;

/// Decodes `input` with `percent_encoding::percent_decode_str(..).decode_utf8()`.
/// Claimed: the result is present exactly where the percent-decoded bytes are
/// valid UTF-8, and it is their decoding (the rules in `percent_decode_bytes`
/// are those of the crate's `after_percent_sign`).
#[verifier::external_body]
fn percent_decode_text(input: &str) -> (r: Option<String>)
    ensures
        r is Some == percent_decoded(input) is Some,
        r matches Some(s) ==> percent_decoded(input) == Some(s@),
{
    percent_encoding::percent_decode_str(input).decode_utf8().ok().map(std::borrow::Cow::into_owned)
}

/// Parses `input` with `url::Url::options().parse` and returns the parsed URL's
/// `path()` and `query()`. Claimed: the result is present exactly where the
/// parser accepts `input`, and its parts are the named path and query of it;
/// the URL grammar itself is not stated.
#[verifier::external_body]
fn parse_url(input: &str) -> (r: Option<(String, Option<String>)>)
    ensures
        r is Some == url_accepts(input@),
        r matches Some(parts) ==> parts.0@ == url_path(input@) && match parts.1 {
            Some(q) => url_query(input@) == Some(q@),
            None => url_query(input@) is None,
        },
{
    match url::Url::options().parse(input) {
        Ok(u) => Some((u.path().to_string(), u.query().map(String::from))),
        Err(_) => None,
    }
}

/// The target made of a parsed URL's path and query: the path normalized, the
/// query as it is.
pub fn request_target(path: &str, query: Option<&str>) -> (r: RequestTarget)
    ensures
        r.path@ == normalized_path(path@),
        r.query_view() == opt_text(query),
{
    let q = match query {
        Some(s) => Some(String::from_str(s)),
        None => None,
    };
    RequestTarget { path: normalize_path(path), query: q }
}

/// The target of a request URL: the URL is percent-decoded, parsed, and its
/// path normalized. `None` where the decoded bytes are not UTF-8 or the URL
/// parser refuses the text.
pub fn resolve_request(url: &str) -> (r: Option<RequestTarget>)
    ensures
        r is Some == (percent_decoded(url) matches Some(d) && url_accepts(d)),
        r matches Some(t) ==> (percent_decoded(url) matches Some(d) && t.path@ == normalized_path(
            url_path(d),
        ) && t.query_view() == url_query(d)),
{
    let decoded = match percent_decode_text(url) {
        Some(d) => d,
        None => return None,
    };
    match parse_url(decoded.as_str()) {
        Some(parts) => {
            let q: Option<&str> = match &parts.1 {
                Some(s) => Some(s.as_str()),
                None => None,
            };
            Some(request_target(parts.0.as_str(), q))
        },
        None => None,
    }
}

} // verus!
