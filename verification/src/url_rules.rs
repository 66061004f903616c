//! The two sets of `file:` URL and path rules that the hooks follow: the
//! plain rules of Unix-like systems, and the rules of Node.js's
//! `fileURLToPath` and `pathToFileURL` on Windows.

use vstd::prelude::*;
use vstd::utf8::*;
use vstd::string::StringSliceAdditionalSpecFns;
use crate::text::{contains_bytes, holds_bytes, ascii_cut};
use crate::file_url::{
    plain_path_bytes, windows_path_bytes, windows_url_bytes, file_url_to_path, path_to_file_url,
    url_to_path, path_to_url,
};
use crate::unix_path::{
    parent, path_parent, extension, extension_bytes, is_absolute, joined_path, path_is_absolute,
    join_path, trim_back, trimmed_prefix_len, lemma_extension_at_end,
};
use crate::windows_path::{
    windows_parent, windows_path_parent, windows_extension, windows_extension_bytes,
    windows_absolute, windows_joined, windows_path_is_absolute, windows_join_path, trimmed,
    root_len, windows_extension_bounds,
};

verus! {

/// Which rules convert between `file:` URLs and paths, and how paths
/// separate their components.
#[derive(Clone, Copy, PartialEq, Eq, Structural, Debug)]
pub enum UrlRules {
    /// `file://` and the path as it is; `/` separates components.
    Plain,
    /// Drive and UNC paths as Node.js converts them on Windows; `\` and
    /// `/` separate components.
    Windows,
}

impl UrlRules {
    /// The path bytes of a `file:` URL, or none when it names no path.
    pub open spec fn path_of(self, url: Seq<u8>) -> Option<Seq<u8>> {
        match self {
            UrlRules::Plain => plain_path_bytes(url),
            UrlRules::Windows => windows_path_bytes(url),
        }
    }

    /// The `file:` URL of an absolute path.
    pub open spec fn url_of(self, path: Seq<char>) -> Seq<char> {
        match self {
            UrlRules::Plain => seq!['f', 'i', 'l', 'e', ':', '/', '/'] + path,
            UrlRules::Windows => decode_utf8(windows_url_bytes(encode_utf8(path))),
        }
    }

    /// The parent of a path, as `Path::parent` reads it.
    pub open spec fn parent_of(self, p: Seq<u8>) -> Option<Seq<u8>> {
        match self {
            UrlRules::Plain => parent(p),
            UrlRules::Windows => windows_parent(p),
        }
    }

    /// The extension of a path, as `Path::extension` reads it.
    pub open spec fn extension_of(self, p: Seq<u8>) -> Option<Seq<u8>> {
        match self {
            UrlRules::Plain => extension(p),
            UrlRules::Windows => windows_extension(p),
        }
    }

    /// The path without trailing separators and trailing `.` components,
    /// never cut into its root.
    pub open spec fn trimmed_of(self, p: Seq<u8>) -> Seq<u8> {
        match self {
            UrlRules::Plain => trim_back(p),
            UrlRules::Windows => trimmed(p, root_len(p)),
        }
    }

    /// Whether a path is absolute, as `Path::is_absolute` reads it.
    pub open spec fn absolute_of(self, p: Seq<u8>) -> bool {
        match self {
            UrlRules::Plain => is_absolute(p),
            UrlRules::Windows => windows_absolute(p),
        }
    }

    /// `base.join(p)`.
    pub open spec fn joined_of(self, base: Seq<u8>, p: Seq<u8>) -> Seq<u8> {
        match self {
            UrlRules::Plain => joined_path(base, p),
            UrlRules::Windows => windows_joined(base, p),
        }
    }

    /// What a path holds when it lies inside a `node_modules` directory.
    pub open spec fn dependency_marker(self) -> Seq<u8> {
        match self {
            UrlRules::Plain => "/node_modules/".spec_bytes(),
            UrlRules::Windows => "\\node_modules\\".spec_bytes(),
        }
    }

    /// A path inside a `node_modules` directory.
    pub open spec fn in_dependencies(self, p: Seq<u8>) -> bool {
        contains_bytes(p, self.dependency_marker())
    }

    /// The path of a `file:` URL is valid UTF-8.
    pub proof fn lemma_path_valid(self, url: Seq<u8>)
        ensures
            self.path_of(url) matches Some(d) ==> valid_utf8(d),
    {
        if self is Windows {
            crate::file_url::lemma_windows_path_valid(url);
        }
    }

    /// Converts a `file:` URL into a path; `None` when it names none.
    pub fn file_url_to_path(&self, url: &str) -> (res: Option<String>)
        ensures
            match self.path_of(url.spec_bytes()) {
                Some(d) => res matches Some(path) && path@ == decode_utf8(d),
                None => res is None,
            },
    {
        match self {
            UrlRules::Plain => file_url_to_path(url),
            UrlRules::Windows => url_to_path(url),
        }
    }

    /// Generates the `file:` URL of an absolute path.
    pub fn path_to_file_url(&self, path: &str) -> (res: String)
        ensures
            res@ == self.url_of(path@),
    {
        match self {
            UrlRules::Plain => path_to_file_url(path),
            UrlRules::Windows => path_to_url(path),
        }
    }

    /// The parent of a path.
    pub fn path_parent(&self, path: &str) -> (res: Option<String>)
        ensures
            match self.parent_of(path.spec_bytes()) {
                Some(d) => res matches Some(s) && s@ == decode_utf8(d),
                None => res is None,
            },
    {
        match self {
            UrlRules::Plain => path_parent(path),
            UrlRules::Windows => windows_path_parent(path),
        }
    }

    /// The bytes of the extension of a path.
    pub fn extension_bytes<'a>(&self, p: &'a [u8]) -> (res: Option<&'a [u8]>)
        ensures
            match self.extension_of(p@) {
                Some(e) => res matches Some(b) && b@ == e,
                None => res is None,
            },
    {
        match self {
            UrlRules::Plain => extension_bytes(p),
            UrlRules::Windows => windows_extension_bytes(p),
        }
    }

    /// Where the extension starts: it stands at the very end of the
    /// trimmed path, right after a `.`.
    pub fn extension_start(&self, p: &[u8]) -> (res: Option<usize>)
        ensures
            match self.extension_of(p@) {
                Some(e) => res matches Some(c) && {
                    &&& c + e.len() == self.trimmed_of(p@).len() <= p@.len()
                    &&& self.trimmed_of(p@) == p@.subrange(0, c + e.len())
                    &&& ascii_cut(p@, c as int)
                },
                None => res is None,
            },
    {
        match self {
            UrlRules::Plain => {
                proof {
                    lemma_extension_at_end(p@);
                }
                match extension_bytes(p) {
                    Some(e) => Some(trimmed_prefix_len(p) - e.len()),
                    None => None,
                }
            },
            UrlRules::Windows => match windows_extension_bounds(p) {
                Some((start, _)) => Some(start),
                None => None,
            },
        }
    }

    /// Whether the path is absolute.
    pub fn is_absolute_path(&self, path: &str) -> (res: bool)
        ensures
            res == self.absolute_of(path.spec_bytes()),
    {
        match self {
            UrlRules::Plain => path_is_absolute(path),
            UrlRules::Windows => windows_path_is_absolute(path),
        }
    }

    /// `base.join(path)`.
    pub fn join(&self, base: &str, path: &str) -> (res: String)
        ensures
            res@ == decode_utf8(self.joined_of(base.spec_bytes(), path.spec_bytes())),
    {
        match self {
            UrlRules::Plain => join_path(base, path),
            UrlRules::Windows => windows_join_path(base, path),
        }
    }

    /// Whether the path lies inside a `node_modules` directory.
    pub fn is_dependency_path(&self, path: &str) -> (res: bool)
        ensures
            res == self.in_dependencies(path.spec_bytes()),
    {
        match self {
            UrlRules::Plain => holds_bytes(path.as_bytes(), "/node_modules/".as_bytes()),
            UrlRules::Windows => holds_bytes(path.as_bytes(), "\\node_modules\\".as_bytes()),
        }
    }
}

} // verus!
