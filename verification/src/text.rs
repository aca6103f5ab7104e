//! Character-level models of the string operations the library relies on
//! (trimming, splitting, prefix and suffix stripping), with executable
//! counterparts proved against them.
use vstd::prelude::*;

verus! {

// ---------------------------------------------------------------------------
// Models
// ---------------------------------------------------------------------------

/// The predicate "is the character `c`".
pub open spec fn is_char(c: char) -> spec_fn(char) -> bool {
    |x: char| x == c
}

/// `s` with its longest prefix of characters satisfying `p` removed.
pub open spec fn trim_start_by(s: Seq<char>, p: spec_fn(char) -> bool) -> Seq<char>
    decreases s.len(),
{
    if s.len() > 0 && p(s[0]) {
        trim_start_by(s.drop_first(), p)
    } else {
        s
    }
}

/// `s` with its longest suffix of characters satisfying `p` removed.
pub open spec fn trim_end_by(s: Seq<char>, p: spec_fn(char) -> bool) -> Seq<char>
    decreases s.len(),
{
    if s.len() > 0 && p(s.last()) {
        trim_end_by(s.drop_last(), p)
    } else {
        s
    }
}

/// `s` with the characters satisfying `p` removed from both ends.
pub open spec fn trim_by(s: Seq<char>, p: spec_fn(char) -> bool) -> Seq<char> {
    trim_end_by(trim_start_by(s, p), p)
}

/// The model of `str::trim_start_matches(c)` for a character `c`.
pub open spec fn trim_start_char(s: Seq<char>, c: char) -> Seq<char> {
    trim_start_by(s, is_char(c))
}

/// The model of `str::trim_matches(c)` for a character `c`.
pub open spec fn trim_char(s: Seq<char>, c: char) -> Seq<char> {
    trim_by(s, is_char(c))
}

/// The characters with the Unicode `White_Space` property, which is what
/// `char::is_whitespace` tests.
pub open spec fn is_white_space(c: char) -> bool {
    ||| ('\u{9}' <= c && c <= '\u{d}')
    ||| c == ' '
    ||| c == '\u{85}'
    ||| c == '\u{a0}'
    ||| c == '\u{1680}'
    ||| ('\u{2000}' <= c && c <= '\u{200a}')
    ||| c == '\u{2028}'
    ||| c == '\u{2029}'
    ||| c == '\u{202f}'
    ||| c == '\u{205f}'
    ||| c == '\u{3000}'
}

/// The predicate form of [`is_white_space`].
pub open spec fn white_space() -> spec_fn(char) -> bool {
    |x: char| is_white_space(x)
}

/// The model of `str::trim`: white space removed from both ends.
pub open spec fn trim_white_space(s: Seq<char>) -> Seq<char> {
    trim_by(s, white_space())
}

/// The pieces of `s` between the occurrences of `sep`, in order (the model of
/// `str::split(sep)` for a character `sep`). There is always at least one piece.
pub open spec fn split_char(s: Seq<char>, sep: char) -> Seq<Seq<char>>
    decreases s.len(),
{
    if s.len() == 0 {
        seq![Seq::empty()]
    } else {
        let rest = split_char(s.drop_last(), sep);
        if s.last() == sep {
            rest.push(Seq::empty())
        } else {
            rest.update(rest.len() - 1, rest.last().push(s.last()))
        }
    }
}

/// `s` with every leading copy of `pat` removed, one copy at a time (the model
/// of `str::trim_start_matches(pat)` for a string pattern). An empty `pat`
/// removes nothing.
pub open spec fn strip_prefixes(s: Seq<char>, pat: Seq<char>) -> Seq<char>
    decreases s.len(),
{
    if pat.len() > 0 && pat.len() <= s.len() && s.take(pat.len() as int) == pat {
        strip_prefixes(s.skip(pat.len() as int), pat)
    } else {
        s
    }
}

/// `s` with every trailing copy of `pat` removed, one copy at a time (the model
/// of `str::trim_end_matches(pat)` for a string pattern).
pub open spec fn strip_suffixes(s: Seq<char>, pat: Seq<char>) -> Seq<char>
    decreases s.len(),
{
    if pat.len() > 0 && pat.len() <= s.len() && s.skip(s.len() - pat.len()) == pat {
        strip_suffixes(s.take(s.len() - pat.len()), pat)
    } else {
        s
    }
}

/// Whether `pat` occurs in `s` as a contiguous piece (the model of `str::contains`).
pub open spec fn contains_seq(s: Seq<char>, pat: Seq<char>) -> bool {
    exists|i: int| 0 <= i && i + pat.len() <= s.len() && #[trigger] s.subrange(i, i + pat.len()) == pat
}

/// `s` with every `from` replaced by `to`.
pub open spec fn replace_char(s: Seq<char>, from: char, to: char) -> Seq<char> {
    s.map_values(|x: char| if x == from { to } else { x })
}

/// The views of a sequence of strings.
pub open spec fn views(v: Seq<String>) -> Seq<Seq<char>> {
    v.map_values(|x: String| x@)
}

/// `s` with every occurrence of `pat` replaced by `rep`, occurrences taken
/// from left to right without overlap (the model of `str::replace` for a
/// non-empty pattern).
pub open spec fn replace_all(s: Seq<char>, pat: Seq<char>, rep: Seq<char>) -> Seq<char>
    decreases s.len(),
{
    if pat.len() > 0 && pat.len() <= s.len() && s.take(pat.len() as int) == pat {
        rep + replace_all(s.skip(pat.len() as int), pat, rep)
    } else if s.len() == 0 {
        Seq::empty()
    } else {
        seq![s[0]] + replace_all(s.skip(1), pat, rep)
    }
}

// ---------------------------------------------------------------------------
// Lemmas

// ---------------------------------------------------------------------------

/// Removing a prefix made of trimmed characters does not change the result of
/// `trim_start_by`.
pub proof fn lemma_trim_start_skip(s: Seq<char>, p: spec_fn(char) -> bool, i: int)
    requires
        0 <= i <= s.len(),
        forall|j: int| 0 <= j < i ==> p(#[trigger] s[j]),
    ensures
        trim_start_by(s, p) == trim_start_by(s.subrange(i, s.len() as int), p),
    decreases i,
{
    if i == 0 {
        assert(s.subrange(0, s.len() as int) =~= s);
    } else {
        let t = s.drop_first();
        assert forall|j: int| 0 <= j < i - 1 implies p(#[trigger] t[j]) by {
            assert(t[j] == s[j + 1]);
        }
        lemma_trim_start_skip(t, p, i - 1);
        assert(t.subrange(i - 1, t.len() as int) =~= s.subrange(i, s.len() as int));
    }
}

/// Removing a suffix made of trimmed characters does not change the result of
/// `trim_end_by`.
pub proof fn lemma_trim_end_take(s: Seq<char>, p: spec_fn(char) -> bool, i: int)
    requires
        0 <= i <= s.len(),
        forall|j: int| i <= j < s.len() ==> p(#[trigger] s[j]),
    ensures
        trim_end_by(s, p) == trim_end_by(s.subrange(0, i), p),
    decreases s.len() - i,
{
    if i == s.len() {
        assert(s.subrange(0, i) =~= s);
    } else {
        let t = s.drop_last();
        assert forall|j: int| i <= j < t.len() implies p(#[trigger] t[j]) by {
            assert(t[j] == s[j]);
        }
        lemma_trim_end_take(t, p, i);
        assert(t.subrange(0, i) =~= s.subrange(0, i));
    }
}

/// `split_char` always yields at least one piece.
pub proof fn lemma_split_nonempty(s: Seq<char>, sep: char)
    ensures
        split_char(s, sep).len() >= 1,
    decreases s.len(),
{
    if s.len() > 0 {
        lemma_split_nonempty(s.drop_last(), sep);
    }
}

/// What `trim_start_by` leaves does not start with a trimmed character.
pub proof fn lemma_trim_start_head(s: Seq<char>, p: spec_fn(char) -> bool)
    ensures
        trim_start_by(s, p).len() == 0 || !p(trim_start_by(s, p)[0]),
        trim_start_by(s, p).len() <= s.len(),
    decreases s.len(),
{
    if s.len() > 0 && p(s[0]) {
        lemma_trim_start_head(s.drop_first(), p);
    }
}

/// What `trim_end_by` leaves is a prefix of `s` that does not end with a
/// trimmed character.
pub proof fn lemma_trim_end_prefix(s: Seq<char>, p: spec_fn(char) -> bool)
    ensures
        trim_end_by(s, p).len() <= s.len(),
        trim_end_by(s, p) == s.take(trim_end_by(s, p).len() as int),
        trim_end_by(s, p).len() == 0 || !p(trim_end_by(s, p).last()),
    decreases s.len(),
{
    if s.len() > 0 && p(s.last()) {
        lemma_trim_end_prefix(s.drop_last(), p);
        let u = trim_end_by(s.drop_last(), p);
        assert(s.drop_last().take(u.len() as int) =~= s.take(u.len() as int));
    } else {
        assert(s.take(s.len() as int) =~= s);
    }
}

/// Trimming twice trims no more than trimming once.
pub proof fn lemma_trim_idempotent(s: Seq<char>, p: spec_fn(char) -> bool)
    ensures
        trim_by(trim_by(s, p), p) == trim_by(s, p),
{
    let t = trim_start_by(s, p);
    let u = trim_end_by(t, p);
    lemma_trim_start_head(s, p);
    lemma_trim_end_prefix(t, p);
    if u.len() > 0 {
        assert(u[0] == t[0]);
    }
    assert(trim_start_by(u, p) == u);
    assert(trim_end_by(u, p) == u);
}

// ---------------------------------------------------------------------------
// Executable counterparts
// ---------------------------------------------------------------------------

/// The characters of `s`, in order.
pub fn chars_of(s: &str) -> (v: Vec<char>)
    ensures
        v@ == s@,
{
    let mut v: Vec<char> = Vec::new();
    for c in it: s.chars()
        invariant
            v@ == it.seq().take(it.index() as int),
    {
        v.push(c);
    }
    v
}

/// Collects characters into a `String` (`String::from_iter`).
#[verifier::external_body]
pub(crate) fn string_of(v: &Vec<char>) -> (s: String)
    ensures
        s@ == v@,
{
    String::from_iter(v)
}

/// The characters `v[from..to]` as a `String`.
pub fn string_of_range(v: &Vec<char>, from: usize, to: usize) -> (s: String)
    requires
        from <= to <= v.len(),
    ensures
        s@ == v@.subrange(from as int, to as int),
{
    let mut out: Vec<char> = Vec::new();
    let mut i = from;
    while i < to
        invariant
            from <= i <= to <= v.len(),
            out@ == v@.subrange(from as int, i as int),
        decreases to - i,
    {
        out.push(v[i]);
        i += 1;
    }
    string_of(&out)
}

/// Whether `c` has the Unicode `White_Space` property.
pub fn white_space_char(c: char) -> (r: bool)
    ensures
        r == is_white_space(c),
{
    ('\u{9}' <= c && c <= '\u{d}') || c == ' ' || c == '\u{85}' || c == '\u{a0}' || c == '\u{1680}'
        || ('\u{2000}' <= c && c <= '\u{200a}') || c == '\u{2028}' || c == '\u{2029}' || c
        == '\u{202f}' || c == '\u{205f}' || c == '\u{3000}'
}

/// The bounds of `v[from..to]` once `c` is trimmed from both ends.
pub fn trim_char_bounds(v: &Vec<char>, from: usize, to: usize, c: char) -> (r: (usize, usize))
    requires
        from <= to <= v.len(),
    ensures
        from <= r.0 <= r.1 <= to,
        v@.subrange(r.0 as int, r.1 as int) == trim_char(v@.subrange(from as int, to as int), c),
{
    let ghost s = v@.subrange(from as int, to as int);
    let ghost p = is_char(c);
    let mut a = from;
    while a < to && v[a] == c
        invariant
            from <= a <= to <= v.len(),
            forall|j: int| from <= j < a ==> v@[j] == c,
        decreases to - a,
    {
        a += 1;
    }
    proof {
        assert forall|j: int| 0 <= j < a - from implies p(#[trigger] s[j]) by {
            assert(s[j] == v@[from + j]);
        }
        lemma_trim_start_skip(s, p, a - from);
        assert(s.subrange(a - from, s.len() as int) =~= v@.subrange(a as int, to as int));
    }
    let ghost t = v@.subrange(a as int, to as int);
    assert(trim_start_by(t, p) == t);
    let mut b = to;
    while b > a && v[b - 1] == c
        invariant
            from <= a <= b <= to <= v.len(),
            forall|j: int| b <= j < to ==> v@[j] == c,
        decreases b,
    {
        b -= 1;
    }
    proof {
        assert forall|j: int| b - a <= j < t.len() implies p(#[trigger] t[j]) by {
            assert(t[j] == v@[a + j]);
        }
        lemma_trim_end_take(t, p, b - a);
        assert(t.subrange(0, b - a) =~= v@.subrange(a as int, b as int));
    }
    (a, b)
}

/// The bounds of `v[from..to]` once white space is trimmed from both ends.
pub fn trim_white_space_bounds(v: &Vec<char>, from: usize, to: usize) -> (r: (usize, usize))
    requires
        from <= to <= v.len(),
    ensures
        from <= r.0 <= r.1 <= to,
        v@.subrange(r.0 as int, r.1 as int) == trim_white_space(v@.subrange(from as int, to as int)),
{
    let ghost s = v@.subrange(from as int, to as int);
    let ghost p = white_space();
    let mut a = from;
    while a < to && white_space_char(v[a])
        invariant
            from <= a <= to <= v.len(),
            forall|j: int| from <= j < a ==> is_white_space(v@[j]),
        decreases to - a,
    {
        a += 1;
    }
    proof {
        assert forall|j: int| 0 <= j < a - from implies p(#[trigger] s[j]) by {
            assert(s[j] == v@[from + j]);
        }
        lemma_trim_start_skip(s, p, a - from);
        assert(s.subrange(a - from, s.len() as int) =~= v@.subrange(a as int, to as int));
    }
    let ghost t = v@.subrange(a as int, to as int);
    assert(trim_start_by(t, p) == t);
    let mut b = to;
    while b > a && white_space_char(v[b - 1])
        invariant
            from <= a <= b <= to <= v.len(),
            forall|j: int| b <= j < to ==> is_white_space(v@[j]),
        decreases b,
    {
        b -= 1;
    }
    proof {
        assert forall|j: int| b - a <= j < t.len() implies p(#[trigger] t[j]) by {
            assert(t[j] == v@[a + j]);
        }
        lemma_trim_end_take(t, p, b - a);
        assert(t.subrange(0, b - a) =~= v@.subrange(a as int, b as int));
    }
    (a, b)
}


/// The pieces of `v[from..to]` between the occurrences of `sep`.
pub fn split_range(v: &Vec<char>, from: usize, to: usize, sep: char) -> (r: Vec<String>)
    requires
        from <= to <= v.len(),
    ensures
        views(r@) == split_char(v@.subrange(from as int, to as int), sep),
{
    let mut out: Vec<String> = Vec::new();
    let mut start = from;
    let mut i = from;
    proof {
        assert(v@.subrange(from as int, from as int) =~= Seq::<char>::empty());
    }
    while i < to
        invariant
            from <= start <= i <= to <= v.len(),
            out.len() + 1 == split_char(v@.subrange(from as int, i as int), sep).len(),
            forall|j: int|
                0 <= j < out.len() ==> #[trigger] out@[j]@ == split_char(
                    v@.subrange(from as int, i as int),
                    sep,
                )[j],
            split_char(v@.subrange(from as int, i as int), sep).last() == v@.subrange(
                start as int,
                i as int,
            ),
        decreases to - i,
    {
        let ghost old_pieces = split_char(v@.subrange(from as int, i as int), sep);
        let ghost next = v@.subrange(from as int, i + 1);
        assert(next.drop_last() =~= v@.subrange(from as int, i as int));
        assert(next.last() == v@[i as int]);
        if v[i] == sep {
            out.push(string_of_range(v, start, i));
            start = i + 1;
            assert(v@.subrange(start as int, i + 1) =~= Seq::<char>::empty());
        } else {
            assert(v@.subrange(start as int, i + 1) =~= v@.subrange(start as int, i as int).push(
                v@[i as int],
            ));
        }
        i += 1;
    }
    out.push(string_of_range(v, start, to));
    proof {
        let pieces = split_char(v@.subrange(from as int, to as int), sep);
        assert(views(out@) =~= pieces);
    }
    out
}

/// The start of `v[from..to]` once the leading `c` are removed.
pub fn trim_start_char_bound(v: &Vec<char>, from: usize, to: usize, c: char) -> (r: usize)
    requires
        from <= to <= v.len(),
    ensures
        from <= r <= to,
        v@.subrange(r as int, to as int) == trim_start_char(v@.subrange(from as int, to as int), c),
{
    let ghost s = v@.subrange(from as int, to as int);
    let ghost p = is_char(c);
    let mut a = from;
    while a < to && v[a] == c
        invariant
            from <= a <= to <= v.len(),
            forall|j: int| from <= j < a ==> v@[j] == c,
        decreases to - a,
    {
        a += 1;
    }
    proof {
        assert forall|j: int| 0 <= j < a - from implies p(#[trigger] s[j]) by {
            assert(s[j] == v@[from + j]);
        }
        lemma_trim_start_skip(s, p, a - from);
        assert(s.subrange(a - from, s.len() as int) =~= v@.subrange(a as int, to as int));
    }
    a
}

/// Whether `v[from..to]` ends with `pat`.
pub fn ends_with_at(v: &Vec<char>, from: usize, to: usize, pat: &Vec<char>) -> (r: bool)
    requires
        from <= to <= v.len(),
    ensures
        r == (pat.len() <= to - from && v@.subrange(from as int, to as int).skip(
            (to - from) - pat.len(),
        ) == pat@),
{
    if pat.len() > to - from {
        return false;
    }
    let start = to - pat.len();
    let mut j: usize = 0;
    while j < pat.len()
        invariant
            start + pat.len() == to <= v.len(),
            from <= start,
            j <= pat.len(),
            forall|k: int| 0 <= k < j ==> v@[start + k] == pat@[k],
        decreases pat.len() - j,
    {
        if v[start + j] != pat[j] {
            assert(v@.subrange(from as int, to as int).skip((to - from) - pat.len())[j as int]
                == v@[start + j]);
            return false;
        }
        j += 1;
    }
    assert(v@.subrange(from as int, to as int).skip((to - from) - pat.len()) =~= pat@);
    true
}

/// Whether `v[from..to]` starts with `pat`.
pub fn starts_with_at(v: &Vec<char>, from: usize, to: usize, pat: &Vec<char>) -> (r: bool)
    requires
        from <= to <= v.len(),
    ensures
        r == (pat.len() <= to - from && v@.subrange(from as int, to as int).take(pat.len() as int)
            == pat@),
{
    if pat.len() > to - from {
        return false;
    }
    let mut j: usize = 0;
    while j < pat.len()
        invariant
            from + pat.len() <= to <= v.len(),
            j <= pat.len(),
            forall|k: int| 0 <= k < j ==> v@[from + k] == pat@[k],
        decreases pat.len() - j,
    {
        if v[from + j] != pat[j] {
            assert(v@.subrange(from as int, to as int).take(pat.len() as int)[j as int] == v@[from
                + j]);
            return false;
        }
        j += 1;
    }
    assert(v@.subrange(from as int, to as int).take(pat.len() as int) =~= pat@);
    true
}

/// The end of `v[from..to]` once every trailing copy of `pat` is removed.
pub fn strip_suffixes_bound(v: &Vec<char>, from: usize, to: usize, pat: &Vec<char>) -> (r: usize)
    requires
        from <= to <= v.len(),
    ensures
        from <= r <= to,
        v@.subrange(from as int, r as int) == strip_suffixes(v@.subrange(from as int, to as int), pat@),
{
    let mut b = to;
    while pat.len() > 0 && ends_with_at(v, from, b, pat)
        invariant
            from <= b <= to <= v.len(),
            strip_suffixes(v@.subrange(from as int, to as int), pat@) == strip_suffixes(
                v@.subrange(from as int, b as int),
                pat@,
            ),
        decreases b,
    {
        let ghost s = v@.subrange(from as int, b as int);
        assert(s.take(s.len() - pat@.len()) =~= v@.subrange(from as int, (b - pat.len()) as int));
        b = b - pat.len();
    }
    b
}

/// The start of `v[from..to]` once every leading copy of `pat` is removed.
pub fn strip_prefixes_bound(v: &Vec<char>, from: usize, to: usize, pat: &Vec<char>) -> (r: usize)
    requires
        from <= to <= v.len(),
    ensures
        from <= r <= to,
        v@.subrange(r as int, to as int) == strip_prefixes(v@.subrange(from as int, to as int), pat@),
{
    let mut a = from;
    while pat.len() > 0 && starts_with_at(v, a, to, pat)
        invariant
            from <= a <= to <= v.len(),
            strip_prefixes(v@.subrange(from as int, to as int), pat@) == strip_prefixes(
                v@.subrange(a as int, to as int),
                pat@,
            ),
        decreases to - a,
    {
        let ghost s = v@.subrange(a as int, to as int);
        assert(s.skip(pat@.len() as int) =~= v@.subrange((a + pat.len()) as int, to as int));
        a = a + pat.len();
    }
    a
}

/// Appends the characters of `more` to `out`.
pub fn push_all(out: &mut Vec<char>, more: &Vec<char>)
    ensures
        final(out)@ == old(out)@ + more@,
{
    let mut i: usize = 0;
    while i < more.len()
        invariant
            i <= more.len(),
            out@ == old(out)@ + more@.take(i as int),
        decreases more.len() - i,
    {
        out.push(more[i]);
        assert(more@.take(i + 1) =~= more@.take(i as int).push(more@[i as int]));
        i += 1;
    }
    assert(more@.take(more.len() as int) =~= more@);
}

/// `s` with every occurrence of `pat` replaced by `rep`.
pub fn replace_text(s: &str, pat: &Vec<char>, rep: &Vec<char>) -> (r: String)
    requires
        pat.len() > 0,
    ensures
        r@ == replace_all(s@, pat@, rep@),
{
    let v = chars_of(s);
    let mut out: Vec<char> = Vec::new();
    let mut i: usize = 0;
    assert(v@.skip(0) =~= v@);
    while i < v.len()
        invariant
            i <= v.len(),
            pat.len() > 0,
            v@ == s@,
            replace_all(s@, pat@, rep@) == out@ + replace_all(v@.skip(i as int), pat@, rep@),
        decreases v.len() - i,
    {
        let ghost t = v@.skip(i as int);
        assert(v@.subrange(i as int, v.len() as int) =~= t);
        if starts_with_at(&v, i, v.len(), pat) {
            push_all(&mut out, rep);
            assert(t.skip(pat@.len() as int) =~= v@.skip(i + pat.len()));
            i = i + pat.len();
        } else {
            out.push(v[i]);
            assert(t.skip(1) =~= v@.skip(i + 1));
            i += 1;
        }
    }
    string_of(&out)
}

/// Whether `pat` occurs in `v` (`str::contains` for a string pattern).
pub fn contains_chars(v: &Vec<char>, pat: &Vec<char>) -> (r: bool)
    ensures
        r == contains_seq(v@, pat@),
{
    if pat.len() > v.len() {
        proof {
            if contains_seq(v@, pat@) {
                let i = choose|i: int| 0 <= i && i + pat@.len() <= v@.len() && #[trigger] v@.subrange(i, i + pat@.len()) == pat@;
            }
        }
        return false;
    }
    if pat.len() == 0 {
        assert(v@.subrange(0int, 0int + pat@.len()) =~= pat@);
        return true;
    }
    let last = v.len() - pat.len();
    let mut i: usize = 0;
    while i <= last
        invariant
            last + pat.len() == v.len(),
            pat.len() > 0,
            i <= last + 1,
            forall|k: int| 0 <= k < i ==> #[trigger] v@.subrange(k, k + pat@.len()) != pat@,
        decreases last + 1 - i,
    {
        if starts_with_at(v, i, v.len(), pat) {
            assert(v@.subrange(i as int, v.len() as int).take(pat.len() as int) =~= v@.subrange(i as int, i + pat.len()));
            return true;
        }
        assert(v@.subrange(i as int, v.len() as int).take(pat.len() as int) =~= v@.subrange(i as int, i + pat.len()));
        i += 1;
    }
    proof {
        if contains_seq(v@, pat@) {
            let k = choose|k: int| 0 <= k && k + pat@.len() <= v@.len() && #[trigger] v@.subrange(k, k + pat@.len()) == pat@;
            assert(k <= last);
        }
    }
    false
}

} // verus!
