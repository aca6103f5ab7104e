//! The theme registry: theme names mapped to the files that hold their
//! colours, loaded from theme directories, and turned into the script that
//! applies a theme to a page.
use vstd::prelude::*;
use std::path::PathBuf;
use crate::name_map::{NameMap, names_unique, pairs_map, has_name, lemma_pairs_map_push};
use crate::text::{chars_of, strip_suffixes, string_of_range, strip_suffixes_bound};

verus! {

#[verifier::external_type_specification]
#[verifier::external_body]
pub struct ExPathBuf(std::path::PathBuf);

#[verifier::external_type_specification]
#[verifier::external_body]
pub struct ExIoError(std::io::Error);

/// Copies a path with `<PathBuf as Clone>::clone`. Claimed: the copy is the
/// same path.
pub assume_specification[ <std::path::PathBuf as Clone>::clone ](p: &std::path::PathBuf) -> (r: std::path::PathBuf)
    ensures
        r == *p,
;

/// Theme names and the files that hold them.
pub type ThemeList = NameMap<PathBuf>;

/// One colour of a theme: a CSS custom property and its value.
#[derive(Debug)]
pub struct ColorItem {
    pub name: String,
    pub value: String,
}

/// A file found in a theme directory, with what the loader needs to know of it.
pub struct ThemeFile {
    /// The file's path.
    pub path: PathBuf,
    /// Whether the path is a regular file.
    pub is_file: bool,
    /// The file's name, where it has one and it is valid UTF-8.
    pub file_name: Option<String>,
    /// The file's text, where it is a regular file that could be read as UTF-8.
    pub content: Option<String>,
}

/// What reading a theme directory gave.
pub enum DirListing {
    /// The path is not a directory.
    NotADirectory,
    /// The directory could not be read.
    Unreadable(std::io::Error),
    /// The files found in it, in the order the directory gave them.
    Entries(Vec<ThemeFile>),
}

/// Why themes could not be loaded.
pub enum ThemeError {
    /// The directory does not exist; the text says which.
    DirectoryNotFound(String),
    /// Reading the directory failed.
    Io(std::io::Error),
}

/// Whether `serde_json::from_str::<serde_json::Value>` accepts the text.
pub uninterp spec fn json_valid(text: Seq<char>) -> bool;

/// Checks `text` with `serde_json::from_str::<serde_json::Value>(..).is_ok()`.
/// Claimed: the answer is `json_valid` of the text (the JSON grammar itself is
/// not stated).
#[verifier::external_body]
fn is_json(text: &str) -> (r: bool)
    ensures
        r == json_valid(text@),
{
    serde_json::from_str::<serde_json::Value>(text).is_ok()
}

/// The theme name of a file: its name with every trailing `.json` removed.
pub open spec fn theme_name_of(file_name: Seq<char>) -> Seq<char> {
    strip_suffixes(file_name, ".json"@)
}

/// The theme a directory entry contributes: a regular file whose text is JSON
/// and whose name is readable, named after its file.
pub open spec fn theme_of(f: ThemeFile) -> Option<(Seq<char>, PathBuf)> {
    if f.is_file && (f.content matches Some(c) && json_valid(c@)) && f.file_name is Some {
        Some((theme_name_of(f.file_name->0@), f.path))
    } else {
        None
    }
}

/// The themes that a directory's entries give, a later entry winning over an
/// earlier one of the same name.
pub open spec fn listing_themes(files: Seq<ThemeFile>) -> Map<Seq<char>, PathBuf>
    decreases files.len(),
{
    if files.len() == 0 {
        Map::empty()
    } else {
        let m = listing_themes(files.drop_last());
        match theme_of(files.last()) {
            Some(t) => m.insert(t.0, t.1),
            None => m,
        }
    }
}

/// The themes a listing gives, or `None` where it is an error.
pub open spec fn listing_map(l: &DirListing) -> Option<Map<Seq<char>, PathBuf>> {
    match l {
        DirListing::Entries(files) => Some(listing_themes(files@)),
        _ => None,
    }
}

/// `e` is the error that loading the listing `l` of `dir` reports.
pub open spec fn listing_error(dir: Seq<char>, l: &DirListing, e: &ThemeError) -> bool {
    match l {
        DirListing::NotADirectory => e matches ThemeError::DirectoryNotFound(m) && m@
            == "Directory not found: "@ + dir,
        DirListing::Unreadable(io) => e matches ThemeError::Io(x) && x == io,
        DirListing::Entries(_) => false,
    }
}

/// The script line that sets one colour.
pub open spec fn color_line(c: ColorItem) -> Seq<char> {
    "root.style.setProperty('"@ + c.name@ + "', '"@ + c.value@ + "');\n"@
}

/// The script lines that set the colours, in order.
pub open spec fn color_lines(colors: Seq<ColorItem>) -> Seq<char>
    decreases colors.len(),
{
    if colors.len() == 0 {
        Seq::empty()
    } else {
        color_lines(colors.drop_last()) + color_line(colors.last())
    }
}

/// The script that applies the colours to the page's root element.
pub open spec fn theme_script_spec(colors: Seq<ColorItem>) -> Seq<char> {
    "const root = document.documentElement;\n"@ + color_lines(colors)
}

/// The script that applies the colours to the page's root element.
pub fn theme_script(colors: &Vec<ColorItem>) -> (r: String)
    ensures
        r@ == theme_script_spec(colors@),
{
    let mut s = String::from_str("const root = document.documentElement;\n");
    let mut i: usize = 0;
    while i < colors.len()
        invariant
            i <= colors.len(),
            s@ == "const root = document.documentElement;\n"@ + color_lines(colors@.take(i as int)),
        decreases colors.len() - i,
    {
        let ghost before = s@;
        s.append("root.style.setProperty('");
        s.append(colors[i].name.as_str());
        s.append("', '");
        s.append(colors[i].value.as_str());
        s.append("');\n");
        proof {
            let t = colors@.take(i + 1);
            assert(t.drop_last() =~= colors@.take(i as int));
            assert(t.last() == colors@[i as int]);
            assert(s@ =~= before + color_line(colors@[i as int]));
        }
        i += 1;
    }
    assert(colors@.take(colors.len() as int) =~= colors@);
    s
}

/// The theme name of a file: its name with every trailing `.json` removed.
pub fn theme_name(file_name: &str) -> (r: String)
    ensures
        r@ == theme_name_of(file_name@),
{
    let v = chars_of(file_name);
    let suffix = chars_of(".json");
    let b = strip_suffixes_bound(&v, 0, v.len(), &suffix);
    assert(v@.subrange(0, v@.len() as int) =~= file_name@);
    string_of_range(&v, 0, b)
}

/// The theme a directory entry contributes, if any.
pub fn theme_entry(f: &ThemeFile) -> (r: Option<(String, PathBuf)>)
    ensures
        match theme_of(*f) {
            Some(t) => r matches Some(x) && x.0@ == t.0 && x.1 == t.1,
            None => r is None,
        },
{
    if !f.is_file {
        return None;
    }
    let valid = match &f.content {
        Some(c) => is_json(c.as_str()),
        None => false,
    };
    if !valid {
        return None;
    }
    match &f.file_name {
        Some(n) => Some((theme_name(n.as_str()), f.path.clone())),
        None => None,
    }
}

/// A copy of a theme list.
pub fn copy_theme_list(l: &ThemeList) -> (r: ThemeList)
    ensures
        r@ == l@,
{
    let pairs = l.pairs();
    let mut out: ThemeList = NameMap::new();
    let mut i: usize = 0;
    proof {
        assert(pairs@.take(0) =~= Seq::<(String, PathBuf)>::empty());
        assert(pairs_map(pairs@.take(0)) =~= Map::<Seq<char>, PathBuf>::empty());
    }
    while i < pairs.len()
        invariant
            i <= pairs.len(),
            names_unique(pairs@),
            pairs_map(pairs@) == l@,
            out@ == pairs_map(pairs@.take(i as int)),
        decreases pairs.len() - i,
    {
        let k = pairs[i].0.clone();
        let p = pairs[i].1.clone();
        proof {
            let t = pairs@.take(i as int);
            assert(pairs@.take(i + 1) =~= t.push(pairs@[i as int]));
            assert forall|a: int, b: int|
                0 <= a < t.len() && 0 <= b < t.len() && a != b implies #[trigger] t[a].0@
                != #[trigger] t[b].0@ by {
                assert(t[a] == pairs@[a] && t[b] == pairs@[b]);
            }
            assert(!has_name(t, pairs@[i as int].0@)) by {
                if has_name(t, pairs@[i as int].0@) {
                    let j = choose|j: int| 0 <= j < t.len() && #[trigger] t[j].0@ == pairs@[i as int].0@;
                    assert(t[j] == pairs@[j]);
                }
            }
            lemma_pairs_map_push(t, pairs@[i as int]);
        }
        out.insert(k, p);
        i += 1;
    }
    assert(pairs@.take(pairs.len() as int) =~= pairs@);
    out
}

/// A theme just added is found under its name with its file, and contained.
pub proof fn law_add_then_get(themes: Map<Seq<char>, PathBuf>, name: Seq<char>, path: PathBuf)
    ensures
        themes.insert(name, path).dom().contains(name),
        themes.insert(name, path)[name] == path,
{
}

/// A removed theme is no longer contained; the other themes stay as they were.
pub proof fn law_remove_then_contains(themes: Map<Seq<char>, PathBuf>, name: Seq<char>, other: Seq<char>)
    ensures
        !themes.remove(name).dom().contains(name),
        other != name ==> themes.remove(name).dom().contains(other) == themes.dom().contains(other),
        other != name && themes.dom().contains(other) ==> themes.remove(name)[other] == themes[other],
{
}

/// Adding many themes: each added theme is found with its file; a theme that
/// was not added keeps its file.
pub proof fn law_add_many_then_get(themes: Map<Seq<char>, PathBuf>, items: Map<Seq<char>, PathBuf>, name: Seq<char>)
    ensures
        items.dom().contains(name) ==> themes.union_prefer_right(items).dom().contains(name)
            && themes.union_prefer_right(items)[name] == items[name],
        !items.dom().contains(name) ==> themes.union_prefer_right(items).dom().contains(name)
            == themes.dom().contains(name) && (themes.dom().contains(name) ==> themes.union_prefer_right(items)[name] == themes[name]),
{
}

/// Loading a directory twice registers the same themes as loading it once.
pub proof fn law_load_twice(themes: Map<Seq<char>, PathBuf>, found: Map<Seq<char>, PathBuf>)
    ensures
        themes.union_prefer_right(found).union_prefer_right(found) == themes.union_prefer_right(found),
{
    assert(themes.union_prefer_right(found).union_prefer_right(found) =~= themes.union_prefer_right(found));
}

/// The theme registry.
#[derive(Debug)]
pub struct Themes {
    list: ThemeList,
    /// The theme applied to new windows.
    pub default: String,
    internal_dir: String,
    user_dir: Option<String>,
}

impl View for Themes {
    type V = Map<Seq<char>, PathBuf>;

    /// The registered themes.
    closed spec fn view(&self) -> Map<Seq<char>, PathBuf> {
        self.list@
    }
}


impl Clone for Themes {
    /// A copy of the registry.
    fn clone(&self) -> (r: Self)
        ensures
            r@ == self@,
            r.default_view() == self.default_view(),
            r.internal_dir_view() == self.internal_dir_view(),
            r.user_dir_view() == self.user_dir_view(),
    {
        let user_dir = match &self.user_dir {
            Some(d) => Some(d.clone()),
            None => None,
        };
        Themes {
            list: copy_theme_list(&self.list),
            default: self.default.clone(),
            internal_dir: self.internal_dir.clone(),
            user_dir,
        }
    }
}

impl Themes {
    /// The default theme's name.
    pub closed spec fn default_view(&self) -> Seq<char> {
        self.default@
    }

    /// The directory shipped with the application.
    pub closed spec fn internal_dir_view(&self) -> Seq<char> {
        self.internal_dir@
    }

    /// The user's own theme directory, if any.
    pub closed spec fn user_dir_view(&self) -> Option<Seq<char>> {
        match self.user_dir {
            Some(d) => Some(d@),
            None => None,
        }
    }

    /// A registry with no themes yet.
    pub fn new(default: String, internal_dir: String) -> (r: Self)
        ensures
            r@ == Map::<Seq<char>, PathBuf>::empty(),
            r.default_view() == default@,
            r.internal_dir_view() == internal_dir@,
            r.user_dir_view() is None,
    {
        Themes { list: NameMap::new(), default, internal_dir, user_dir: None }
    }

    /// The directory shipped with the application.
    pub fn internal_dir(&self) -> (r: &str)
        ensures
            r@ == self.internal_dir_view(),
    {
        self.internal_dir.as_str()
    }

    /// The user's own theme directory, if any.
    pub fn user_dir(&self) -> (r: Option<&str>)
        ensures
            match r {
                Some(d) => self.user_dir_view() == Some(d@),
                None => self.user_dir_view() is None,
            },
    {
        match &self.user_dir {
            Some(d) => Some(d.as_str()),
            None => None,
        }
    }

    /// Registers `file_path` under `theme_name`, replacing what was there.
    pub fn add(&mut self, theme_name: String, file_path: PathBuf)
        ensures
            final(self)@ == old(self)@.insert(theme_name@, file_path),
            final(self).default_view() == old(self).default_view(),
            final(self).internal_dir_view() == old(self).internal_dir_view(),
            final(self).user_dir_view() == old(self).user_dir_view(),
    {
        self.list.insert(theme_name, file_path);
    }

    /// Registers every theme of `items`, replacing what was there.
    pub fn add_many(&mut self, items: ThemeList)
        ensures
            final(self)@ == old(self)@.union_prefer_right(items@),
            final(self).default_view() == old(self).default_view(),
            final(self).internal_dir_view() == old(self).internal_dir_view(),
            final(self).user_dir_view() == old(self).user_dir_view(),
    {
        self.list.extend(items);
    }

    /// The file of the theme `theme_name`.
    pub fn get(&self, theme_name: &str) -> (r: Option<&PathBuf>)
        ensures
            r is Some == self@.dom().contains(theme_name@),
            r matches Some(p) ==> *p == self@[theme_name@],
    {
        self.list.get(theme_name)
    }

    /// The files of the themes `theme_names`, in order.
    pub fn get_many<'a>(&'a self, theme_names: &[String]) -> (r: Vec<Option<&'a PathBuf>>)
        ensures
            r.len() == theme_names@.len(),
            forall|i: int|
                0 <= i < r.len() ==> (#[trigger] r@[i] is Some == self@.dom().contains(
                    theme_names@[i]@,
                ) && (r@[i] matches Some(p) ==> *p == self@[theme_names@[i]@])),
    {
        let mut out: Vec<Option<&'a PathBuf>> = Vec::new();
        let mut i: usize = 0;
        while i < theme_names.len()
            invariant
                i <= theme_names.len(),
                out.len() == i,
                forall|j: int|
                    0 <= j < i ==> (#[trigger] out@[j] is Some == self@.dom().contains(
                        theme_names@[j]@,
                    ) && (out@[j] matches Some(p) ==> *p == self@[theme_names@[j]@])),
            decreases theme_names.len() - i,
        {
            out.push(self.list.get(theme_names[i].as_str()));
            i += 1;
        }
        out
    }

    /// Unregisters the theme `theme_name`.
    pub fn remove(&mut self, theme_name: &str)
        ensures
            final(self)@ == old(self)@.remove(theme_name@),
            final(self).default_view() == old(self).default_view(),
            final(self).internal_dir_view() == old(self).internal_dir_view(),
            final(self).user_dir_view() == old(self).user_dir_view(),
    {
        self.list.remove(theme_name);
    }

    /// Unregisters every theme of `theme_names`.
    pub fn remove_many(&mut self, theme_names: &[String])
        ensures
            final(self)@ == old(self)@.remove_keys(theme_names@.map_values(|n: String| n@).to_set()),
            final(self).default_view() == old(self).default_view(),
            final(self).internal_dir_view() == old(self).internal_dir_view(),
            final(self).user_dir_view() == old(self).user_dir_view(),
    {
        let ghost start = self@;
        let ghost names = theme_names@.map_values(|n: String| n@);
        let mut i: usize = 0;
        proof {
            assert(start.remove_keys(names.take(0).to_set()) =~= start);
        }
        while i < theme_names.len()
            invariant
                i <= theme_names.len(),
                names == theme_names@.map_values(|n: String| n@),
                self@ == start.remove_keys(names.take(i as int).to_set()),
                self.default_view() == old(self).default_view(),
                self.internal_dir_view() == old(self).internal_dir_view(),
                self.user_dir_view() == old(self).user_dir_view(),
            decreases theme_names.len() - i,
        {
            self.list.remove(theme_names[i].as_str());
            proof {
                assert(names.take(i + 1) =~= names.take(i as int).push(names[i as int]));
                names.take(i as int).lemma_push_to_set_commute(names[i as int]);
                assert(self@ =~= start.remove_keys(names.take(i + 1).to_set()));
            }
            i += 1;
        }
        assert(names.take(theme_names.len() as int) =~= names);
    }

    /// Whether the theme `theme_name` is registered.
    pub fn contains(&self, theme_name: &str) -> (b: bool)
        ensures
            b == self@.dom().contains(theme_name@),
    {
        self.list.contains_key(theme_name)
    }

    /// A copy of the registered themes.
    pub fn list(&self) -> (r: ThemeList)
        ensures
            r@ == self@,
    {
        copy_theme_list(&self.list)
    }

    /// The script that applies the theme `theme_name`, whose colours are
    /// `colors`; `None` where no such theme is registered.
    pub fn parse_to_string(&self, theme_name: &str, colors: &Vec<ColorItem>) -> (r: Option<String>)
        ensures
            r is Some == self@.dom().contains(theme_name@),
            r matches Some(s) ==> s@ == theme_script_spec(colors@),
    {
        if self.contains(theme_name) {
            Some(theme_script(colors))
        } else {
            None
        }
    }

    /// Registers the themes of a directory listing of `dir_path`; on an error
    /// the registry is left as it was.
    pub fn load_from_directory(&mut self, dir_path: &str, listing: DirListing) -> (r: Result<(), ThemeError>)
        ensures
            r is Ok == listing_map(&listing) is Some,
            r is Ok ==> final(self)@ == old(self)@.union_prefer_right(listing_map(&listing)->0),
            r matches Err(e) ==> listing_error(dir_path@, &listing, &e) && final(self)@ == old(self)@,
            final(self).default_view() == old(self).default_view(),
            final(self).internal_dir_view() == old(self).internal_dir_view(),
            final(self).user_dir_view() == old(self).user_dir_view(),
    {
        match listing {
            DirListing::NotADirectory => {
                let mut m = String::from_str("Directory not found: ");
                m.append(dir_path);
                Err(ThemeError::DirectoryNotFound(m))
            },
            DirListing::Unreadable(e) => Err(ThemeError::Io(e)),
            DirListing::Entries(files) => {
                let mut found: ThemeList = NameMap::new();
                let mut i: usize = 0;
                proof {
                    assert(files@.take(0) =~= Seq::<ThemeFile>::empty());
                }
                while i < files.len()
                    invariant
                        i <= files.len(),
                        found@ == listing_themes(files@.take(i as int)),
                    decreases files.len() - i,
                {
                    proof {
                        assert(files@.take(i + 1).drop_last() =~= files@.take(i as int));
                        assert(files@.take(i + 1).last() == files@[i as int]);
                    }
                    match theme_entry(&files[i]) {
                        Some(t) => {
                            found.insert(t.0, t.1);
                        },
                        None => {},
                    }
                    i += 1;
                }
                assert(files@.take(files.len() as int) =~= files@);
                self.list.extend(found);
                Ok(())
            },
        }
    }

    /// Reloads the registry: it is emptied, then filled from the listing of
    /// the internal directory and, where a user directory is set, from the
    /// listing of that one. The first error stops the reload and is returned.
    pub fn reload(&mut self, internal: DirListing, user: DirListing) -> (r: Result<(), ThemeError>)
        ensures
            final(self).default_view() == old(self).default_view(),
            final(self).internal_dir_view() == old(self).internal_dir_view(),
            final(self).user_dir_view() == old(self).user_dir_view(),
            match listing_map(&internal) {
                None => r matches Err(e) && listing_error(old(self).internal_dir_view(), &internal, &e)
                    && final(self)@ == Map::<Seq<char>, PathBuf>::empty(),
                Some(mi) => match old(self).user_dir_view() {
                    None => r is Ok && final(self)@ == mi,
                    Some(ud) => match listing_map(&user) {
                        None => r matches Err(e) && listing_error(ud, &user, &e) && final(self)@ == mi,
                        Some(mu) => r is Ok && final(self)@ == mi.union_prefer_right(mu),
                    },
                },
            },
    {
        self.list.clear();
        let internal_dir = self.internal_dir.clone();
        let ghost empty = Map::<Seq<char>, PathBuf>::empty();
        match self.load_from_directory(internal_dir.as_str(), internal) {
            Ok(()) => {},
            Err(e) => return Err(e),
        }
        proof {
            assert(empty.union_prefer_right(listing_map(&internal)->0) =~= listing_map(&internal)->0);
        }
        match &self.user_dir {
            Some(d) => {
                let user_dir = d.clone();
                self.load_from_directory(user_dir.as_str(), user)
            },
            None => Ok(()),
        }
    }
}

} // verus!
