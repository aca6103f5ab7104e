//! The JavaScript snippets that the plugin evaluates in its windows.
use vstd::prelude::*;
use crate::text::{chars_of, replace_all, replace_text};

verus! {

/// The digit character of `d`, for `0 <= d < 10`.
pub open spec fn digit_char(d: int) -> char {
    if d == 0 {
        '0'
    } else if d == 1 {
        '1'
    } else if d == 2 {
        '2'
    } else if d == 3 {
        '3'
    } else if d == 4 {
        '4'
    } else if d == 5 {
        '5'
    } else if d == 6 {
        '6'
    } else if d == 7 {
        '7'
    } else if d == 8 {
        '8'
    } else {
        '9'
    }
}

/// The decimal numeral of `n`, without leading zeros (what `format!("{}", n)`
/// writes for an unsigned integer).
pub open spec fn decimal(n: nat) -> Seq<char>
    decreases n,
{
    if n < 10 {
        seq![digit_char(n as int)]
    } else {
        decimal(n / 10).push(digit_char((n % 10) as int))
    }
}

/// The value of a decimal digit character.
pub open spec fn digit_value(c: char) -> int {
    c as int - '0' as int
}

/// Whether `c` is one of `0` to `9`.
pub open spec fn is_digit(c: char) -> bool {
    '0' <= c && c <= '9'
}

/// The number that a string of decimal digits spells.
pub open spec fn numeral_value(s: Seq<char>) -> int
    decreases s.len(),
{
    if s.len() == 0 {
        0
    } else {
        numeral_value(s.drop_last()) * 10 + digit_value(s.last())
    }
}

/// `decimal(n)` is the base-10 numeral of `n`: it is made of digits, they
/// spell `n`, and it starts with `0` only for `n == 0`.
pub proof fn law_decimal_spells_number(n: nat)
    ensures
        decimal(n).len() >= 1,
        forall|i: int| 0 <= i < decimal(n).len() ==> is_digit(#[trigger] decimal(n)[i]),
        numeral_value(decimal(n)) == n,
        decimal(n)[0] == '0' ==> n == 0,
    decreases n,
{
    if n >= 10 {
        law_decimal_spells_number(n / 10);
        let d = decimal(n);
        assert(d.drop_last() =~= decimal(n / 10));
        assert(d[0] == decimal(n / 10)[0]);
        assert forall|i: int| 0 <= i < d.len() implies is_digit(#[trigger] d[i]) by {
            if i < d.len() - 1 {
                assert(d[i] == decimal(n / 10)[i]);
            }
        }
    } else {
        assert(numeral_value(decimal(n).drop_last()) == 0);
    }
}

fn digit(d: usize) -> (c: char)
    requires
        d < 10,
    ensures
        c == digit_char(d as int),
{
    if d == 0 {
        '0'
    } else if d == 1 {
        '1'
    } else if d == 2 {
        '2'
    } else if d == 3 {
        '3'
    } else if d == 4 {
        '4'
    } else if d == 5 {
        '5'
    } else if d == 6 {
        '6'
    } else if d == 7 {
        '7'
    } else if d == 8 {
        '8'
    } else {
        '9'
    }
}

/// The decimal numeral of `n`.
pub fn decimal_chars(n: usize) -> (r: Vec<char>)
    ensures
        r@ == decimal(n as nat),
{
    let mut m = n;
    let mut out: Vec<char> = Vec::new();
    assert(decimal(n as nat) =~= decimal(m as nat) + out@);
    loop
        invariant_except_break
            decimal(n as nat) == decimal(m as nat) + out@,
        ensures
            decimal(n as nat) == out@,
        decreases m,
    {
        let ghost before = out@;
        out.insert(0, digit(m % 10));
        if m < 10 {
            assert(out@ =~= seq![digit_char(m as int)] + before);
            break;
        }
        assert(decimal(m as nat) == decimal((m / 10) as nat).push(digit_char((m % 10) as int)));
        assert(decimal(m as nat) + before =~= decimal((m / 10) as nat) + out@);
        m = m / 10;
    }
    out
}

/// The text that the show-window script puts in place of its delay marker.
pub open spec fn show_window_script_spec(js: Seq<char>, delay: nat) -> Seq<char> {
    replace_all(js, "___CUSTOM___DELAY___"@, decimal(delay))
}

/// The show-window script `js` with its delay marker replaced by `delay`.
pub fn show_window_script(js: &str, delay: usize) -> (r: String)
    ensures
        r@ == show_window_script_spec(js@, delay as nat),
{
    let marker = chars_of("___CUSTOM___DELAY___");
    proof {
        reveal_strlit("___CUSTOM___DELAY___");
    }
    let digits = decimal_chars(delay);
    replace_text(js, &marker, &digits)
}

/// The script that applies a theme when a window is created, with the
/// listener for the page's load left commented out.
pub open spec fn window_init_theme_script_spec(theme: Seq<char>) -> Seq<char> {
    "(function (){\n            //window.addEventListener('DOMContentLoaded', () => {\n                "@
        + theme + "\n            //})\n        })();"@
}

/// The script that applies a theme when a window is created.
pub fn window_init_theme_script(theme: &str) -> (r: String)
    ensures
        r@ == window_init_theme_script_spec(theme@),
{
    let mut s = String::from_str(
        "(function (){\n            //window.addEventListener('DOMContentLoaded', () => {\n                ",
    );
    s.append(theme);
    s.append("\n            //})\n        })();");
    s
}

/// The script that applies a theme once the page has loaded.
pub open spec fn loaded_theme_script_spec(theme: Seq<char>) -> Seq<char> {
    "(function (){\n            window.addEventListener('DOMContentLoaded', () => {\n                "@
        + theme + "\n            })\n        })();"@
}

/// The script that applies a theme once the page has loaded.
pub fn loaded_theme_script(theme: &str) -> (r: String)
    ensures
        r@ == loaded_theme_script_spec(theme@),
{
    let mut s = String::from_str(
        "(function (){\n            window.addEventListener('DOMContentLoaded', () => {\n                ",
    );
    s.append(theme);
    s.append("\n            })\n        })();");
    s
}

/// The script that applies a theme at once.
pub open spec fn apply_theme_script_spec(theme: Seq<char>) -> Seq<char> {
    "(function (){\n            "@ + theme + "\n        })();"@
}

/// The script that applies a theme at once.
pub fn apply_theme_script(theme: &str) -> (r: String)
    ensures
        r@ == apply_theme_script_spec(theme@),
{
    let mut s = String::from_str("(function (){\n            ");
    s.append(theme);
    s.append("\n        })();");
    s
}

} // verus!
