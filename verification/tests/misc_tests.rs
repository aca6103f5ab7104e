use tauri_core_tools::github::{AdapterOptions, GitHubContent, Rate, RateLimitResponse};
use tauri_core_tools::name_map::NameMap;
use tauri_core_tools::scripts::{
    apply_theme_script, decimal_chars, loaded_theme_script, show_window_script,
    window_init_theme_script,
};
use tauri_core_tools::templates::{template_extension, template_name};
use tauri_core_tools::text::{chars_of, contains_chars, string_of_range, white_space_char};

fn text(v: &[char]) -> String {
    v.iter().collect()
}

#[test]
fn white_space_matches_std() {
    for u in 0u32..0x3100 {
        if let Some(c) = char::from_u32(u) {
            assert_eq!(white_space_char(c), c.is_whitespace(), "at {:x}", u);
        }
    }
    assert_eq!(white_space_char('\u{feff}'), '\u{feff}'.is_whitespace());
}

#[test]
fn chars_round_trip() {
    let s = "héllo/wörld";
    let v = chars_of(s);
    assert_eq!(text(&v), s);
    assert_eq!(string_of_range(&v, 1, 5), "éllo");
    assert!(contains_chars(&chars_of("desktop-main"), &chars_of("p-m")));
    assert!(contains_chars(&chars_of("abc"), &chars_of("")));
    assert!(!contains_chars(&chars_of("ab"), &chars_of("abc")));
}

#[test]
fn decimal_numbers() {
    assert_eq!(text(&decimal_chars(0)), "0");
    assert_eq!(text(&decimal_chars(200)), "200");
    assert_eq!(text(&decimal_chars(usize::MAX)), usize::MAX.to_string());
}

#[test]
fn show_window_delay_is_filled_in() {
    assert_eq!(show_window_script("setTimeout(f, ___CUSTOM___DELAY___);", 200), "setTimeout(f, 200);");
    assert_eq!(show_window_script("___CUSTOM___DELAY______CUSTOM___DELAY___", 5), "55");
    assert_eq!(show_window_script("no marker", 5), "no marker");
}

#[test]
fn theme_scripts_wrap_text() {
    assert_eq!(apply_theme_script("X"), "(function (){\n            X\n        })();");
    assert_eq!(
        window_init_theme_script("X"),
        "(function (){\n            //window.addEventListener('DOMContentLoaded', () => {\n                X\n            //})\n        })();"
    );
    assert_eq!(
        loaded_theme_script("X"),
        "(function (){\n            window.addEventListener('DOMContentLoaded', () => {\n                X\n            })\n        })();"
    );
}

#[test]
fn template_names() {
    assert_eq!(template_name("/srv/tpl/pages/home.hbs", "/srv/tpl"), "pages/home.hbs");
    assert_eq!(template_name("C:\\tpl\\a\\b.hbs", "C:\\tpl"), "a/b.hbs");
    assert_eq!(template_name("tpltpl/x.hbs", "tpl"), "x.hbs");
    assert_eq!(template_name("other/x.hbs", "tpl"), "other/x.hbs");
    assert_eq!(template_extension("hbs"), "hbs");
    assert_eq!(template_extension(".hbs"), ".hbs");
}

#[test]
fn github_urls() {
    let o = AdapterOptions::new("owner/repo".to_string(), "themes".to_string());
    assert_eq!(o.get_base_url(), "https://api.github.com/repos/owner/repo/contents/themes");
    let c = GitHubContent { name: "a.json".to_string(), kind: "file".to_string() };
    assert_eq!(c.kind, "file");
    let r = RateLimitResponse { rate: Rate { limit: 60, remaining: 59, reset: 1 } };
    assert_eq!(r.rate.remaining, 59);
}

#[test]
fn name_map_basics() {
    let mut m: NameMap<u32> = NameMap::new();
    m.insert("a".to_string(), 1);
    m.insert("b".to_string(), 2);
    m.insert("a".to_string(), 3);
    assert_eq!(m.len(), 2);
    assert_eq!(m.get("a"), Some(&3));
    assert_eq!(m.remove("a"), Some(3));
    assert_eq!(m.remove("a"), None);
    assert!(!m.contains_key("a"));
    let mut other: NameMap<u32> = NameMap::new();
    other.insert("b".to_string(), 20);
    other.insert("c".to_string(), 30);
    m.extend(other);
    assert_eq!(m.get("b"), Some(&20));
    assert_eq!(m.get("c"), Some(&30));
    m.clear();
    assert_eq!(m.len(), 0);
    assert_eq!(m.pairs().len(), 0);
}
