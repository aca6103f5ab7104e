//! The GitHub repository that themes can be listed from, and the shapes of
//! the GitHub API's answers.
use vstd::prelude::*;

verus! {

/// The base of the GitHub repository API.
pub const GITHUB_BASE_URL: &'static str = "https://api.github.com/repos";

/// The GitHub rate-limit endpoint.
pub const GITHUB_RATE_LIMIT: &'static str = "https://api.github.com/rate_limit";

/// A repository and a directory in it.
pub struct AdapterOptions {
    repository: String,
    directory: String,
}

impl AdapterOptions {
    /// The repository, as `owner/name`.
    pub closed spec fn repository_view(&self) -> Seq<char> {
        self.repository@
    }

    /// The directory in the repository.
    pub closed spec fn directory_view(&self) -> Seq<char> {
        self.directory@
    }

    /// Options for `directory` of `repository`.
    pub fn new(repository: String, directory: String) -> (r: Self)
        ensures
            r.repository_view() == repository@,
            r.directory_view() == directory@,
    {
        Self { repository, directory }
    }

    /// The API address of the directory's contents.
    pub fn get_base_url(&self) -> (r: String)
        ensures
            r@ == "https://api.github.com/repos"@ + "/"@ + self.repository_view() + "/contents/"@
                + self.directory_view(),
    {
        let mut s = String::from_str(GITHUB_BASE_URL);
        s.append("/");
        s.append(self.repository.as_str());
        s.append("/contents/");
        s.append(self.directory.as_str());
        s
    }
}

/// An entry of a directory listing.
pub struct GitHubContent {
    pub name: String,
    /// `file` or `dir`.
    pub kind: String,
}

/// The answer of the rate-limit endpoint.
pub struct RateLimitResponse {
    pub rate: Rate,
}

/// The request budget of the current window.
pub struct Rate {
    /// Total limit for the current window.
    pub limit: u32,
    /// Requests left.
    pub remaining: u32,
    /// When the window resets (UNIX time).
    pub reset: u64,
}

} // verus!
