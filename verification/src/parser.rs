//! Matching request paths against route templates such as `/users/<id>`, and
//! reading query strings such as `a=1&b=2`.
use vstd::prelude::*;
use crate::name_map::NameMap;
use crate::text::{chars_of, split_char, split_range, string_of_range, trim_char, trim_char_bounds, views};

verus! {

/// Parameters taken from a path, by name.
pub type URLParams = NameMap<String>;

/// Query values by key; `None` where the request had no query string.
pub type URLQuerys = Option<NameMap<String>>;

/// The strings of a name map, by their views.
pub open spec fn text_map(m: Map<Seq<char>, String>) -> Map<Seq<char>, Seq<char>> {
    m.map_values(|s: String| s@)
}

/// The `/`-separated segments of `s` once its leading and trailing `/` are removed.
pub open spec fn path_segments(s: Seq<char>) -> Seq<Seq<char>> {
    split_char(trim_char(s, '/'), '/')
}

/// A template segment of the form `<name>`.
pub open spec fn is_param_segment(t: Seq<char>) -> bool {
    t.len() >= 1 && t[0] == '<' && t.last() == '>'
}

/// The name inside a `<name>` segment.
pub open spec fn param_name(t: Seq<char>) -> Seq<char> {
    t.subrange(1, t.len() - 1)
}

/// Matches path segments `p` against template segments `t` from position `i`
/// on, with the parameters `acc` gathered so far; `None` at the first literal
/// segment that differs.
pub open spec fn match_from(
    p: Seq<Seq<char>>,
    t: Seq<Seq<char>>,
    i: int,
    acc: Map<Seq<char>, Seq<char>>,
) -> Option<Map<Seq<char>, Seq<char>>>
    decreases p.len() - i,
{
    if i < 0 || i >= p.len() || i >= t.len() {
        Some(acc)
    } else if is_param_segment(t[i]) {
        match_from(p, t, i + 1, acc.insert(param_name(t[i]), p[i]))
    } else if p[i] != t[i] {
        None
    } else {
        match_from(p, t, i + 1, acc)
    }
}

/// The parameters that `path` yields against the template `route`, or `None`
/// where it does not match: the segment counts must agree, each literal
/// segment must be equal, and each `<name>` segment binds `name` to the path's
/// segment at the same place (a later binding of a name wins).
pub open spec fn route_match(path: Seq<char>, route: Seq<char>) -> Option<Map<Seq<char>, Seq<char>>> {
    let p = path_segments(path);
    let t = path_segments(route);
    if p.len() != t.len() {
        None
    } else {
        match_from(p, t, 0, Map::empty())
    }
}

/// The key and value of one `key=value` piece: the first two `=`-separated
/// parts, or `None` where there is no `=`.
pub open spec fn query_entry(piece: Seq<char>) -> Option<(Seq<char>, Seq<char>)> {
    let parts = split_char(piece, '=');
    if parts.len() >= 2 {
        Some((parts[0], parts[1]))
    } else {
        None
    }
}

/// The values that the pieces give, a later piece winning over an earlier one.
pub open spec fn query_map(pieces: Seq<Seq<char>>) -> Map<Seq<char>, Seq<char>>
    decreases pieces.len(),
{
    if pieces.len() == 0 {
        Map::empty()
    } else {
        let m = query_map(pieces.drop_last());
        match query_entry(pieces.last()) {
            Some(kv) => m.insert(kv.0, kv.1),
            None => m,
        }
    }
}

/// The query map of an optional query string, split on `&`.
pub open spec fn parse_query_spec(query: Option<Seq<char>>) -> Option<Map<Seq<char>, Seq<char>>> {
    match query {
        Some(q) => Some(query_map(split_char(q, '&'))),
        None => None,
    }
}

/// The path parameters and query values of a matched request.
#[derive(Debug)]
pub struct URLInfo {
    params: URLParams,
    querys: URLQuerys,
}

impl URLInfo {
    /// The path parameters.
    pub closed spec fn params_view(&self) -> Map<Seq<char>, Seq<char>> {
        text_map(self.params@)
    }

    /// The query values, `None` where the request had no query string.
    pub closed spec fn querys_view(&self) -> Option<Map<Seq<char>, Seq<char>>> {
        match &self.querys {
            Some(q) => Some(text_map(q@)),
            None => None,
        }
    }

    /// The raw text of the query value stored under `k`.
    pub fn query_text(&self, k: &str) -> (r: Option<&String>)
        ensures
            r is Some == (self.querys_view() matches Some(q) && q.dom().contains(k@)),
            r matches Some(s) ==> self.querys_view() matches Some(q) && s@ == q[k@],
    {
        match &self.querys {
            Some(q) => q.get(k),
            None => None,
        }
    }

    /// The raw text of the path parameter named `k`.
    pub fn param_text(&self, k: &str) -> (r: Option<&String>)
        ensures
            r is Some == self.params_view().dom().contains(k@),
            r matches Some(s) ==> s@ == self.params_view()[k@],
    {
        self.params.get(k)
    }

    /// The query value stored under `k`, parsed with `T::from_str`; `None`
    /// where there is no such value or it does not parse.
    pub fn get_query<T: std::str::FromStr>(&self, k: &str) -> (r: Option<T>)
        ensures
            r is Some ==> (self.querys_view() matches Some(q) && q.dom().contains(k@)),
            (self.querys_view() matches Some(q) && q.dom().contains(k@)) ==> exists|t: &str|
                t@ == self.querys_view()->0[k@] && parsed_from(t, r),
    {
        match self.query_text(k) {
            Some(text) => parse_value::<T>(text.as_str()),
            None => None,
        }
    }

    /// The path parameter named `k`, parsed with `T::from_str`; `None` where
    /// there is no such parameter or it does not parse.
    pub fn get_param<T: std::str::FromStr>(&self, k: &str) -> (r: Option<T>)
        ensures
            r is Some ==> self.params_view().dom().contains(k@),
            self.params_view().dom().contains(k@) ==> exists|t: &str|
                t@ == self.params_view()[k@] && parsed_from(t, r),
    {
        match self.param_text(k) {
            Some(text) => parse_value::<T>(text.as_str()),
            None => None,
        }
    }
}

/// `r` is what parsing `text` with `T::from_str` gave.
pub closed spec fn parsed_from<T: std::str::FromStr>(text: &str, r: Option<T>) -> bool {
    call_ensures(parse_value::<T>, (text,), r)
}

/// Parses `text` with `str::parse::<T>` (that is, `T::from_str`). What comes
/// back depends on `T`'s implementation, so nothing is stated of it.
#[verifier::external_body]
fn parse_value<T: std::str::FromStr>(text: &str) -> Option<T>
{
    text.parse::<T>().ok()
}

/// The segments of `s` as `path_segments` describes them.
pub fn segments(s: &str) -> (r: Vec<String>)
    ensures
        views(r@) == path_segments(s@),
{
    let v = chars_of(s);
    let (a, b) = trim_char_bounds(&v, 0, v.len(), '/');
    assert(v@.subrange(0, v@.len() as int) =~= s@);
    split_range(&v, a, b, '/')
}

/// Parses an optional query string into its values.
pub fn parse_query(query_string: Option<&str>) -> (r: URLQuerys)
    ensures
        r is None <==> query_string is None,
        r matches Some(m) ==> (query_string matches Some(q) && text_map(m@) == query_map(
            split_char(q@, '&'),
        )),
{
    match query_string {
        None => None,
        Some(query) => {
            let qv = chars_of(query);
            let pieces = split_range(&qv, 0, qv.len(), '&');
            proof {
                assert(qv@.subrange(0, qv@.len() as int) =~= query@);
            }
            let ghost all = views(pieces@);
            let mut querys: NameMap<String> = NameMap::new();
            let mut i: usize = 0;
            proof {
                assert(all.take(0) =~= Seq::<Seq<char>>::empty());
                assert(text_map(querys@) =~= Map::<Seq<char>, Seq<char>>::empty());
            }
            while i < pieces.len()
                invariant
                    i <= pieces.len(),
                    all == views(pieces@),
                    text_map(querys@) == query_map(all.take(i as int)),
                decreases pieces.len() - i,
            {
                let pv = chars_of(pieces[i].as_str());
                let parts = split_range(&pv, 0, pv.len(), '=');
                proof {
                    assert(pv@.subrange(0, pv@.len() as int) =~= all[i as int]);
                    assert(all.take(i + 1).drop_last() =~= all.take(i as int));
                    assert(all.take(i + 1).last() == all[i as int]);
                }
                if parts.len() >= 2 {
                    let key = parts[0].clone();
                    let value = parts[1].clone();
                    let ghost before = querys@;
                    querys.insert(key, value);
                    proof {
                        assert(views(parts@)[0] == parts@[0]@);
                        assert(views(parts@)[1] == parts@[1]@);
                        assert(text_map(querys@) =~= text_map(before).insert(key@, value@));
                    }
                }
                i += 1;
            }
            proof {
                assert(all.take(pieces.len() as int) =~= all);
            }
            Some(querys)
        },
    }
}

/// The names bound by the `<name>` segments of `t` from position `i` on.
pub open spec fn param_names_from(t: Seq<Seq<char>>, i: int) -> Set<Seq<char>> {
    Set::new(|k: Seq<char>| exists|j: int| i <= j < t.len() && is_param_segment(t[j]) && #[trigger] param_name(t[j]) == k)
}

/// The path segments that the template segments `t` stand for once each
/// `<name>` is given the value `vals[name]`.
pub open spec fn fill_segments(t: Seq<Seq<char>>, vals: Map<Seq<char>, Seq<char>>) -> Seq<Seq<char>> {
    t.map_values(|s: Seq<char>| if is_param_segment(s) { vals[param_name(s)] } else { s })
}

proof fn lemma_literal_match_from(p: Seq<Seq<char>>, t: Seq<Seq<char>>, i: int, acc: Map<Seq<char>, Seq<char>>)
    requires
        0 <= i <= p.len(),
        p.len() == t.len(),
        forall|j: int| i <= j < t.len() ==> !is_param_segment(#[trigger] t[j]),
    ensures
        match_from(p, t, i, acc) == if p.skip(i) == t.skip(i) { Some(acc) } else { None::<Map<Seq<char>, Seq<char>>> },
    decreases p.len() - i,
{
    if i < p.len() {
        lemma_literal_match_from(p, t, i + 1, acc);
        if p.skip(i) == t.skip(i) {
            assert(p[i] == p.skip(i)[0]);
            assert(p.skip(i + 1) =~= p.skip(i).skip(1));
            assert(t.skip(i + 1) =~= t.skip(i).skip(1));
        } else if p[i] == t[i] {
            if p.skip(i + 1) == t.skip(i + 1) {
                assert(p.skip(i) =~= t.skip(i)) by {
                    assert forall|j: int| 0 <= j < p.skip(i).len() implies p.skip(i)[j] == t.skip(i)[j] by {
                        if j > 0 {
                            assert(p.skip(i)[j] == p.skip(i + 1)[j - 1]);
                            assert(t.skip(i)[j] == t.skip(i + 1)[j - 1]);
                        }
                    }
                }
            }
        } else {
            assert(p.skip(i)[0] != t.skip(i)[0]);
        }
    } else {
        assert(p.skip(i) =~= t.skip(i));
    }
}

/// A template without `<name>` segments matches a path exactly when their
/// segments are the same, and then binds nothing.
pub proof fn law_literal_route(path: Seq<char>, route: Seq<char>)
    requires
        forall|j: int| 0 <= j < path_segments(route).len() ==> !is_param_segment(#[trigger] path_segments(route)[j]),
    ensures
        route_match(path, route) == if path_segments(path) == path_segments(route) {
            Some(Map::<Seq<char>, Seq<char>>::empty())
        } else {
            None::<Map<Seq<char>, Seq<char>>>
        },
{
    let p = path_segments(path);
    let t = path_segments(route);
    if p.len() == t.len() {
        lemma_literal_match_from(p, t, 0, Map::empty());
        assert(p.skip(0) =~= p);
        assert(t.skip(0) =~= t);
    }
}

proof fn lemma_filled_match_from(t: Seq<Seq<char>>, vals: Map<Seq<char>, Seq<char>>, i: int, acc: Map<Seq<char>, Seq<char>>)
    requires
        0 <= i <= t.len(),
        forall|j: int| 0 <= j < t.len() && is_param_segment(#[trigger] t[j]) ==> vals.dom().contains(param_name(t[j])),
        forall|k: Seq<char>| #[trigger] acc.dom().contains(k) ==> vals.dom().contains(k) && acc[k] == vals[k],
    ensures
        match_from(fill_segments(t, vals), t, i, acc) == Some(acc.union_prefer_right(vals.restrict(param_names_from(t, i)))),
    decreases t.len() - i,
{
    let p = fill_segments(t, vals);
    if i < t.len() {
        if is_param_segment(t[i]) {
            let name = param_name(t[i]);
            let acc2 = acc.insert(name, vals[name]);
            lemma_filled_match_from(t, vals, i + 1, acc2);
            assert(acc2.union_prefer_right(vals.restrict(param_names_from(t, i + 1))) =~= acc.union_prefer_right(vals.restrict(param_names_from(t, i)))) by {
                assert(param_names_from(t, i) =~= param_names_from(t, i + 1).insert(name)) by {
                    assert forall|k: Seq<char>| param_names_from(t, i).contains(k) implies #[trigger] param_names_from(t, i + 1).insert(name).contains(k) by {
                        let j = choose|j: int| i <= j < t.len() && is_param_segment(t[j]) && #[trigger] param_name(t[j]) == k;
                        if j > i {
                            assert(param_names_from(t, i + 1).contains(k));
                        }
                    }
                    assert forall|k: Seq<char>| #[trigger] param_names_from(t, i + 1).insert(name).contains(k) implies param_names_from(t, i).contains(k) by {
                        if k == name {
                            assert(param_name(t[i]) == k);
                        } else {
                            let j = choose|j: int| i + 1 <= j < t.len() && is_param_segment(t[j]) && #[trigger] param_name(t[j]) == k;
                        }
                    }
                }
            }
        } else {
            lemma_filled_match_from(t, vals, i + 1, acc);
            assert(param_names_from(t, i) =~= param_names_from(t, i + 1)) by {
                assert forall|k: Seq<char>| param_names_from(t, i).contains(k) implies #[trigger] param_names_from(t, i + 1).contains(k) by {
                    let j = choose|j: int| i <= j < t.len() && is_param_segment(t[j]) && #[trigger] param_name(t[j]) == k;
                    assert(j != i);
                }
                assert forall|k: Seq<char>| #[trigger] param_names_from(t, i + 1).contains(k) implies param_names_from(t, i).contains(k) by {
                    let j = choose|j: int| i + 1 <= j < t.len() && is_param_segment(t[j]) && #[trigger] param_name(t[j]) == k;
                }
            }
        }
    } else {
        assert(param_names_from(t, i) =~= Set::<Seq<char>>::empty());
        assert(acc.union_prefer_right(vals.restrict(param_names_from(t, i))) =~= acc);
    }
}

/// A path made from a template by giving each `<name>` a value matches the
/// template and binds each name of the template to the value it was given.
pub proof fn law_filled_route_binds_values(path: Seq<char>, route: Seq<char>, vals: Map<Seq<char>, Seq<char>>)
    requires
        forall|j: int| 0 <= j < path_segments(route).len() && is_param_segment(#[trigger] path_segments(route)[j])
            ==> vals.dom().contains(param_name(path_segments(route)[j])),
        path_segments(path) == fill_segments(path_segments(route), vals),
    ensures
        route_match(path, route) == Some(vals.restrict(param_names_from(path_segments(route), 0))),
{
    let t = path_segments(route);
    lemma_filled_match_from(t, vals, 0, Map::empty());
    assert(Map::<Seq<char>, Seq<char>>::empty().union_prefer_right(vals.restrict(param_names_from(t, 0))) =~= vals.restrict(param_names_from(t, 0)));
}

/// Every literal segment of `t` from `i` on equals the segment of `p` at the
/// same place.
pub open spec fn literals_agree_from(p: Seq<Seq<char>>, t: Seq<Seq<char>>, i: int) -> bool {
    forall|j: int| i <= j < t.len() && !is_param_segment(#[trigger] t[j]) ==> p[j] == t[j]
}

/// No `<name>` segment after `j` carries the name of the one at `j`.
pub open spec fn last_binding_at(t: Seq<Seq<char>>, j: int) -> bool {
    forall|k: int| j < k < t.len() && is_param_segment(#[trigger] t[k]) ==> param_name(t[k]) != param_name(t[j])
}

proof fn lemma_match_from_some(p: Seq<Seq<char>>, t: Seq<Seq<char>>, i: int, acc: Map<Seq<char>, Seq<char>>)
    requires
        p.len() == t.len(),
        0 <= i <= t.len(),
    ensures
        match_from(p, t, i, acc) is Some <==> literals_agree_from(p, t, i),
    decreases t.len() - i,
{
    if i < t.len() {
        if is_param_segment(t[i]) {
            lemma_match_from_some(p, t, i + 1, acc.insert(param_name(t[i]), p[i]));
        } else {
            lemma_match_from_some(p, t, i + 1, acc);
        }
        if literals_agree_from(p, t, i + 1) && (is_param_segment(t[i]) || p[i] == t[i]) {
            assert forall|j: int| i <= j < t.len() && !is_param_segment(#[trigger] t[j]) implies p[j] == t[j] by {
                if j > i {
                    assert(literals_agree_from(p, t, i + 1));
                }
            }
        }
    }
}

proof fn lemma_match_from_binds(p: Seq<Seq<char>>, t: Seq<Seq<char>>, i: int, acc: Map<Seq<char>, Seq<char>>)
    requires
        p.len() == t.len(),
        0 <= i <= t.len(),
        literals_agree_from(p, t, i),
    ensures
        match_from(p, t, i, acc) is Some,
        match_from(p, t, i, acc)->0.dom() == acc.dom().union(param_names_from(t, i)),
        forall|j: int| i <= j < t.len() && is_param_segment(#[trigger] t[j]) && last_binding_at(t, j)
            ==> match_from(p, t, i, acc)->0[param_name(t[j])] == p[j],
        forall|k: Seq<char>| #[trigger] acc.dom().contains(k) && !param_names_from(t, i).contains(k)
            ==> match_from(p, t, i, acc)->0[k] == acc[k],
    decreases t.len() - i,
{
    if i < t.len() {
        let acc2 = if is_param_segment(t[i]) { acc.insert(param_name(t[i]), p[i]) } else { acc };
        lemma_match_from_binds(p, t, i + 1, acc2);
        let m = match_from(p, t, i, acc)->0;
        assert(m == match_from(p, t, i + 1, acc2)->0);
        if is_param_segment(t[i]) {
            let name = param_name(t[i]);
            assert(param_names_from(t, i) =~= param_names_from(t, i + 1).insert(name)) by {
                assert forall|k: Seq<char>| param_names_from(t, i).contains(k) implies #[trigger] param_names_from(t, i + 1).insert(name).contains(k) by {
                    let j = choose|j: int| i <= j < t.len() && is_param_segment(t[j]) && #[trigger] param_name(t[j]) == k;
                    if j > i {
                        assert(param_names_from(t, i + 1).contains(k));
                    }
                }
                assert forall|k: Seq<char>| #[trigger] param_names_from(t, i + 1).insert(name).contains(k) implies param_names_from(t, i).contains(k) by {
                    if k == name {
                        assert(param_name(t[i]) == k);
                    } else {
                        let j = choose|j: int| i + 1 <= j < t.len() && is_param_segment(t[j]) && #[trigger] param_name(t[j]) == k;
                    }
                }
            }
            assert(m.dom() =~= acc.dom().union(param_names_from(t, i)));
            assert forall|j: int| i <= j < t.len() && is_param_segment(#[trigger] t[j]) && last_binding_at(t, j)
                implies m[param_name(t[j])] == p[j] by {
                if j == i {
                    if param_names_from(t, i + 1).contains(name) {
                        let k = choose|k: int| i + 1 <= k < t.len() && is_param_segment(t[k]) && #[trigger] param_name(t[k]) == name;
                        assert(param_name(t[k]) != param_name(t[i]));
                    }
                    assert(acc2.dom().contains(name));
                }
            }
            assert forall|k: Seq<char>| #[trigger] acc.dom().contains(k) && !param_names_from(t, i).contains(k)
                implies m[k] == acc[k] by {
                assert(k != name);
                assert(acc2.dom().contains(k));
            }
        } else {
            assert(param_names_from(t, i) =~= param_names_from(t, i + 1)) by {
                assert forall|k: Seq<char>| param_names_from(t, i).contains(k) implies #[trigger] param_names_from(t, i + 1).contains(k) by {
                    let j = choose|j: int| i <= j < t.len() && is_param_segment(t[j]) && #[trigger] param_name(t[j]) == k;
                    assert(j != i);
                }
                assert forall|k: Seq<char>| #[trigger] param_names_from(t, i + 1).contains(k) implies param_names_from(t, i).contains(k) by {
                    let j = choose|j: int| i + 1 <= j < t.len() && is_param_segment(t[j]) && #[trigger] param_name(t[j]) == k;
                }
            }
        }
    } else {
        assert(param_names_from(t, i) =~= Set::<Seq<char>>::empty());
        assert(acc.dom().union(param_names_from(t, i)) =~= acc.dom());
    }
}

/// A template matches a path exactly when both have as many segments and every
/// literal segment of the template equals the path's segment at the same
/// place; a `<name>` segment matches any segment.
pub proof fn law_route_match_literals(path: Seq<char>, route: Seq<char>)
    ensures
        route_match(path, route) is Some <==> (path_segments(path).len() == path_segments(route).len()
            && forall|j: int| 0 <= j < path_segments(route).len() && !is_param_segment(#[trigger] path_segments(route)[j])
                ==> path_segments(path)[j] == path_segments(route)[j]),
{
    let p = path_segments(path);
    let t = path_segments(route);
    if p.len() == t.len() {
        lemma_match_from_some(p, t, 0, Map::empty());
    }
}

/// Where a template matches a path, the names bound are exactly the names of
/// its `<name>` segments, and each carries the path's segment at the last
/// place the template names it.
pub proof fn law_route_match_binds(path: Seq<char>, route: Seq<char>, j: int)
    requires
        route_match(path, route) is Some,
    ensures
        route_match(path, route)->0.dom() == param_names_from(path_segments(route), 0),
        0 <= j < path_segments(route).len() && is_param_segment(path_segments(route)[j])
            && last_binding_at(path_segments(route), j) ==> route_match(path, route)->0[param_name(
            path_segments(route)[j],
        )] == path_segments(path)[j],
{
    let p = path_segments(path);
    let t = path_segments(route);
    lemma_match_from_some(p, t, 0, Map::empty());
    lemma_match_from_binds(p, t, 0, Map::empty());
    assert(Map::<Seq<char>, Seq<char>>::empty().dom().union(param_names_from(t, 0)) =~= param_names_from(t, 0));
}

/// The view of an optional string slice.
pub open spec fn opt_text(o: Option<&str>) -> Option<Seq<char>> {
    match o {
        Some(s) => Some(s@),
        None => None,
    }
}

/// Matches `path` against the template `route`; where it matches, returns the
/// parameters it binds together with the values of the query string `querys`.
pub fn parse_path(path: &str, route: &str, querys: Option<&str>) -> (r: Option<URLInfo>)
    ensures
        r is Some == route_match(path@, route@) is Some,
        r matches Some(info) ==> route_match(path@, route@) == Some(info.params_view())
            && info.querys_view() == parse_query_spec(opt_text(querys)),
{
    let p = segments(path);
    let t = segments(route);
    if p.len() != t.len() {
        return None;
    }
    let ghost pv = views(p@);
    let ghost tv = views(t@);
    let mut params: NameMap<String> = NameMap::new();
    proof {
        assert(text_map(params@) =~= Map::<Seq<char>, Seq<char>>::empty());
    }
    let mut i: usize = 0;
    while i < p.len()
        invariant
            i <= p.len() == t.len(),
            pv == views(p@),
            tv == views(t@),
            pv.len() == tv.len(),
            pv == path_segments(path@),
            tv == path_segments(route@),
            match_from(pv, tv, 0, Map::empty()) == match_from(pv, tv, i as int, text_map(params@)),
        decreases p.len() - i,
    {
        let tc = chars_of(t[i].as_str());
        let n = tc.len();
        assert(tv[i as int] == t@[i as int]@);
        assert(pv[i as int] == p@[i as int]@);
        if n >= 1 && tc[0] == '<' && tc[n - 1] == '>' {
            let key = string_of_range(&tc, 1, n - 1);
            let value = p[i].clone();
            let ghost before = params@;
            params.insert(key, value);
            proof {
                assert(text_map(params@) =~= text_map(before).insert(key@, value@));
            }
        } else if !(p[i] == t[i]) {
            proof {
                assert(!is_param_segment(tv[i as int]));
                assert(pv[i as int] != tv[i as int]);
                assert(match_from(pv, tv, i as int, text_map(params@)) is None);
            }
            return None;
        }
        i += 1;
    }
    let q = parse_query(querys);
    let info = URLInfo { params, querys: q };
    proof {
        match querys {
            Some(s) => {},
            None => {},
        }
    }
    Some(info)
}

} // verus!
