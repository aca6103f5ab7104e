//! Choosing window configurations and capability files.
use vstd::prelude::*;
use crate::text::{chars_of, contains_chars, contains_seq};
use crate::window_states::Error;

verus! {

/// The prefix of the window labels of the platform: `mobile-` on mobile
/// systems, `desktop-` elsewhere.
pub open spec fn label_prefix_spec(mobile: bool) -> Seq<char> {
    if mobile {
        "mobile-"@
    } else {
        "desktop-"@
    }
}

/// The prefix of the window labels of the platform.
pub fn label_prefix(mobile: bool) -> (r: &'static str)
    ensures
        r@ == label_prefix_spec(mobile),
{
    if mobile {
        "mobile-"
    } else {
        "desktop-"
    }
}

/// The first position of `labels` whose label holds the platform prefix
/// followed by `label`.
pub open spec fn first_config_from(labels: Seq<String>, wanted: Seq<char>, i: int) -> Option<int>
    decreases labels.len() - i,
{
    if i < 0 || i >= labels.len() {
        None
    } else if contains_seq(labels[i]@, wanted) {
        Some(i)
    } else {
        first_config_from(labels, wanted, i + 1)
    }
}

/// Finds the configuration of the window `label` among the configurations'
/// labels: the first whose label contains the platform prefix followed by
/// `label`.
pub fn find_window_config(labels: &Vec<String>, label: &str, mobile: bool) -> (r: Result<usize, Error>)
    ensures
        match first_config_from(labels@, label_prefix_spec(mobile) + label@, 0) {
            Some(i) => r == Ok::<usize, Error>(i as usize),
            None => r matches Err(Error::WindowConfigNotFound(m)) && m@ == label@,
        },
        r matches Ok(i) ==> i < labels.len() && contains_seq(labels@[i as int]@, label_prefix_spec(mobile) + label@)
            && forall|j: int| 0 <= j < i ==> !contains_seq(#[trigger] labels@[j]@, label_prefix_spec(mobile) + label@),
        r is Err == forall|j: int| 0 <= j < labels.len() ==> !contains_seq(#[trigger] labels@[j]@, label_prefix_spec(mobile) + label@),
{
    let mut wanted = chars_of(label_prefix(mobile));
    let tail = chars_of(label);
    crate::text::push_all(&mut wanted, &tail);
    let mut i: usize = 0;
    while i < labels.len()
        invariant
            i <= labels.len(),
            wanted@ == label_prefix_spec(mobile) + label@,
            first_config_from(labels@, wanted@, 0) == first_config_from(labels@, wanted@, i as int),
            forall|j: int| 0 <= j < i ==> !contains_seq(#[trigger] labels@[j]@, wanted@),
        decreases labels.len() - i,
    {
        let l = chars_of(labels[i].as_str());
        if contains_chars(&l, &wanted) {
            return Ok(i);
        }
        i += 1;
    }
    Err(Error::WindowConfigNotFound(String::from_str(label)))
}

/// The capability file of a window label.
pub open spec fn capability_path_spec(label: Seq<char>) -> Seq<char> {
    "../capabilities/"@ + label + ".json"@
}

/// The capability file of a window label.
pub fn capability_path(label: &str) -> (r: String)
    ensures
        r@ == capability_path_spec(label@),
{
    let mut s = String::from_str("../capabilities/");
    s.append(label);
    s.append(".json");
    s
}

/// The capability file to use for `label`: its own where that file exists,
/// the default one otherwise.
pub fn choose_cap_file(label: &str, file_exists: bool) -> (r: String)
    ensures
        r@ == if file_exists {
            capability_path_spec(label@)
        } else {
            capability_path_spec("default"@)
        },
{
    if file_exists {
        capability_path(label)
    } else {
        capability_path("default")
    }
}

/// Whether a request to the plugin's `actions` scheme asks to show its window.
pub fn is_show_window_action(path: &str) -> (r: bool)
    ensures
        r == (path@ == "/show_window"@),
{
    String::from_str(path) == String::from_str("/show_window")
}

} // verus!
