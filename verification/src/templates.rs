//! Naming the template files of a template directory.
use vstd::prelude::*;
use crate::text::{chars_of, replace_char, string_of_range, strip_prefixes, strip_prefixes_bound, trim_start_char, trim_start_char_bound, contains_seq, contains_chars};

verus! {

/// The extension that template files are recognised by, as given: where it
/// holds no `.`, its leading `.` are trimmed (of which there are none then).
pub open spec fn template_extension_spec(extension: Seq<char>) -> Seq<char> {
    if !contains_seq(extension, "."@) {
        trim_start_char(extension, '.')
    } else {
        extension
    }
}

/// The extension check leaves every extension as it was given: trimming
/// leading `.` only happens where there is no `.` at all.
pub proof fn law_template_extension_unchanged(extension: Seq<char>)
    ensures
        template_extension_spec(extension) == extension,
{
    reveal_strlit(".");
    if !contains_seq(extension, "."@) && extension.len() > 0 {
        if extension[0] == '.' {
            assert(extension.subrange(0int, 0int + "."@.len()) =~= "."@);
        }
    }
}

/// The extension that template files are recognised by.
pub fn template_extension(extension: &str) -> (r: String)
    ensures
        r@ == template_extension_spec(extension@),
{
    let v = chars_of(extension);
    let dot = chars_of(".");
    assert(v@.subrange(0, v@.len() as int) =~= extension@);
    if !contains_chars(&v, &dot) {
        let a = trim_start_char_bound(&v, 0, v.len(), '.');
        string_of_range(&v, a, v.len())
    } else {
        string_of_range(&v, 0, v.len())
    }
}

/// The name a template is registered under: its path with every leading copy
/// of the directory removed, `\` turned into `/`, and leading `/` removed.
pub open spec fn template_name_spec(path: Seq<char>, dir: Seq<char>) -> Seq<char> {
    trim_start_char(replace_char(strip_prefixes(path, dir), '\\', '/'), '/')
}

/// The name a template is registered under.
pub fn template_name(path: &str, dir: &str) -> (r: String)
    ensures
        r@ == template_name_spec(path@, dir@),
{
    let v = chars_of(path);
    let d = chars_of(dir);
    let a = strip_prefixes_bound(&v, 0, v.len(), &d);
    assert(v@.subrange(0, v@.len() as int) =~= path@);
    let mut w: Vec<char> = Vec::new();
    let mut i = a;
    while i < v.len()
        invariant
            a <= i <= v.len(),
            w@ == replace_char(v@.subrange(a as int, i as int), '\\', '/'),
        decreases v.len() - i,
    {
        let c = v[i];
        w.push(if c == '\\' {
            '/'
        } else {
            c
        });
        assert(v@.subrange(a as int, i + 1) =~= v@.subrange(a as int, i as int).push(c));
        assert(w@ =~= replace_char(v@.subrange(a as int, i + 1), '\\', '/'));
        i += 1;
    }
    let b = trim_start_char_bound(&w, 0, w.len(), '/');
    assert(w@.subrange(0, w@.len() as int) =~= w@);
    string_of_range(&w, b, w.len())
}

} // verus!
