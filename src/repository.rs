//! A repository's identity and its optional metadata, each read at most once.

use vstd::prelude::*;
use crate::error::{Failure, SiteError};
use crate::text::{trim_text, trimmed};

verus! {

/// What reading an optional metadata file beside the object store gave.
pub enum SidecarRead {
    /// The file's text.
    Found(String),
    /// There is no such file.
    Missing,
    /// Reading failed otherwise; the text says why.
    Failed(String),
}

/// The value of an optional metadata file: its text without surrounding white space,
/// empty where the file is absent, and an I/O failure where reading failed otherwise.
pub fn sidecar_value(read: SidecarRead) -> (r: Result<String, SiteError>)
    ensures
        read matches SidecarRead::Found(s) ==> r is Ok && r->Ok_0@ == trimmed(s@),
        read is Missing ==> r is Ok && r->Ok_0@.len() == 0,
        read matches SidecarRead::Failed(why) ==> r is Err && r->Err_0@ == Failure::Io(why@),
{
    match read {
        SidecarRead::Found(s) => Ok(trim_text(s.as_str())),
        SidecarRead::Missing => Ok(String::new()),
        SidecarRead::Failed(why) => Err(SiteError::Io(why)),
    }
}

/// The last component of a `/`-separated path; `None` where it is empty.
pub open spec fn last_component(path: Seq<char>) -> Option<Seq<char>> {
    let k = if exists|i: int| 0 <= i < path.len() && path[i] == '/' {
        choose|i: int|
            0 <= i < path.len() && path[i] == '/' && forall|j: int| i < j < path.len() ==> path[j] != '/'
    } else {
        -1
    };
    if k + 1 < path.len() {
        Some(path.subrange(k + 1, path.len() as int))
    } else {
        None
    }
}

/// The last component of the `/`-separated path `path`, where it is not empty.
pub fn name_from_path(path: &str) -> (r: Option<String>)
    ensures
        r matches Some(s) ==> last_component(path@) == Some(s@),
        r is None ==> last_component(path@) is None,
{
    let n = path.unicode_len();
    let mut i: usize = n;
    while i > 0
        invariant
            i <= n,
            n == path@.len(),
            forall|j: int| i <= j < n ==> path@[j] != '/',
        decreases i,
    {
        if path.get_char(i - 1) == '/' {
            let ghost k = choose|c: int|
                0 <= c < path@.len() && path@[c] == '/' && forall|j: int| c < j < path@.len() ==> path@[j] != '/';
            assert(k == i - 1) by {
                assert(path@[i - 1] == '/');
                if k < i - 1 {
                } else if k > i - 1 {
                }
            }
            if i < n {
                return Some(path.substring_char(i, n).to_owned());
            } else {
                return None;
            }
        }
        i = i - 1;
    }
    assert(!exists|j: int| 0 <= j < path@.len() && path@[j] == '/');
    if n > 0 {
        Some(path.to_owned())
    } else {
        None
    }
}

/// A value computed on first use and kept from then on.
pub struct Memo {
    value: Option<String>,
}

impl View for Memo {
    type V = Option<Seq<char>>;

    closed spec fn view(&self) -> Option<Seq<char>> {
        match self.value {
            Some(s) => Some(s@),
            None => None,
        }
    }
}

impl Memo {
    /// Nothing computed yet.
    pub fn new() -> (r: Self)
        ensures
            r@ is None,
    {
        Memo { value: None }
    }

    /// The kept value, if any.
    pub fn get(&self) -> (r: Option<String>)
        ensures
            r matches Some(v) ==> self@ == Some(v@),
            r is None ==> self@ is None,
    {
        match &self.value {
            Some(v) => Some(v.clone()),
            None => None,
        }
    }

    /// Keeps `v`.
    pub fn keep(&mut self, v: String)
        ensures
            final(self)@ == Some(v@),
    {
        self.value = Some(v);
    }

    /// The kept value; where there is none yet, what `compute` gives, kept when it
    /// succeeds. `compute` runs only where no value is kept.
    pub fn get_or_try<F: FnOnce() -> Result<String, SiteError>>(&mut self, compute: F) -> (r: Result<String, SiteError>)
        requires
            old(self)@ is None ==> compute.requires(()),
        ensures
            old(self)@ matches Some(v) ==> r is Ok && r->Ok_0@ == v && final(self)@ == old(self)@,
            old(self)@ is None ==> compute.ensures((), r),
            old(self)@ is None && r is Ok ==> final(self)@ == Some(r->Ok_0@),
            old(self)@ is None && r is Err ==> final(self)@ is None,
    {
        match &self.value {
            Some(v) => Ok(v.clone()),
            None => {
                let computed = compute();
                match computed {
                    Ok(v) => {
                        self.value = Some(v.clone());
                        Ok(v)
                    },
                    Err(e) => Err(e),
                }
            },
        }
    }
}

/// A repository's identity: the canonical path of its working directory and the
/// location of its object store, with its name, description and clone URL, each
/// computed at most once.
pub struct Repository {
    path: String,
    gitdir: String,
    name: Memo,
    description: Memo,
    url: Memo,
}

impl Repository {
    /// The repository whose canonical path is `path` and whose object store is at `gitdir`.
    pub fn new(path: String, gitdir: String) -> (r: Self)
        ensures
            r.wf(),
            r.path_text() == path@,
            r.gitdir_text() == gitdir@,
            r.known_description() is None,
            r.known_url() is None,
    {
        Repository { path, gitdir, name: Memo::new(), description: Memo::new(), url: Memo::new() }
    }

    /// A kept name is the last component of the path.
    pub closed spec fn wf(&self) -> bool {
        self.name@ matches Some(v) ==> last_component(self.path@) == Some(v)
    }

    pub closed spec fn path_text(&self) -> Seq<char> {
        self.path@
    }

    pub closed spec fn gitdir_text(&self) -> Seq<char> {
        self.gitdir@
    }

    /// The description, where it has been read.
    pub closed spec fn known_description(&self) -> Option<Seq<char>> {
        self.description@
    }

    /// The clone URL, where it has been read.
    pub closed spec fn known_url(&self) -> Option<Seq<char>> {
        self.url@
    }

    /// The location of the object store.
    pub fn gitdir(&self) -> (r: &str)
        ensures
            r@ == self.gitdir_text(),
    {
        self.gitdir.as_str()
    }

    /// The last component of the repository's canonical path; a path without one is
    /// no repository root.
    pub fn name(&mut self) -> (r: Result<String, SiteError>)
        requires
            old(self).wf(),
        ensures
            final(self).wf(),
            final(self).path_text() == old(self).path_text(),
            final(self).gitdir_text() == old(self).gitdir_text(),
            final(self).known_description() == old(self).known_description(),
            final(self).known_url() == old(self).known_url(),
            r matches Ok(s) ==> last_component(old(self).path_text()) == Some(s@),
            r is Err ==> last_component(old(self).path_text()) is None,
    {
        match self.name.get() {
            Some(v) => Ok(v),
            None => match name_from_path(self.path.as_str()) {
                Some(n) => {
                    self.name.keep(n.clone());
                    Ok(n)
                },
                None => Err(SiteError::RepositoryOpen(self.path.clone())),
            },
        }
    }

    /// The description: on the first call what `read` gives, kept where it succeeds;
    /// afterwards the kept value, without calling `read`.
    pub fn description<F: FnOnce() -> Result<String, SiteError>>(&mut self, read: F) -> (r: Result<String, SiteError>)
        requires
            old(self).wf(),
            old(self).known_description() is None ==> read.requires(()),
        ensures
            final(self).wf(),
            final(self).path_text() == old(self).path_text(),
            final(self).known_url() == old(self).known_url(),
            old(self).known_description() matches Some(v) ==> r is Ok && r->Ok_0@ == v
                && final(self).known_description() == old(self).known_description(),
            old(self).known_description() is None ==> read.ensures((), r),
            old(self).known_description() is None && r is Ok ==> final(self).known_description() == Some(r->Ok_0@),
    {
        self.description.get_or_try(read)
    }

    /// The clone URL: on the first call what `read` gives, kept where it succeeds;
    /// afterwards the kept value, without calling `read`.
    pub fn url<F: FnOnce() -> Result<String, SiteError>>(&mut self, read: F) -> (r: Result<String, SiteError>)
        requires
            old(self).wf(),
            old(self).known_url() is None ==> read.requires(()),
        ensures
            final(self).wf(),
            final(self).path_text() == old(self).path_text(),
            final(self).known_description() == old(self).known_description(),
            old(self).known_url() matches Some(v) ==> r is Ok && r->Ok_0@ == v
                && final(self).known_url() == old(self).known_url(),
            old(self).known_url() is None ==> read.ensures((), r),
            old(self).known_url() is None && r is Ok ==> final(self).known_url() == Some(r->Ok_0@),
    {
        self.url.get_or_try(read)
    }
}

} // verus!
