use vstd::prelude::*;

use std::path::PathBuf;

verus! {

#[verifier::external_type_specification]
#[verifier::external_body]
pub struct ExPathBuf(PathBuf);

/// How `path` reads when shown to a person: `Path::display`, which replaces
/// what is not valid UTF-8 and so depends on the path alone.
pub uninterp spec fn displayed(path: PathBuf) -> Seq<char>;

/// `Path::display` of `path`, written into a `String`.
#[verifier::external_body]
fn display_path(path: &PathBuf) -> (text: String)
    ensures
        text@ == displayed(*path),
{
    format!("{}", path.display())
}

/// `Path::is_relative` of `path`: whether it is not anchored at a root.
pub uninterp spec fn is_relative_path(path: PathBuf) -> bool;

/// `Path::parent` of `path`: the path without its last component, if it
/// has one.
pub uninterp spec fn parent_of(path: PathBuf) -> Option<PathBuf>;

/// `Path::join` of `base` and `path`: `path` taken from `base`.
pub uninterp spec fn joined(base: PathBuf, path: PathBuf) -> PathBuf;

/// `Path::is_relative`.
#[verifier::external_body]
fn path_is_relative(path: &PathBuf) -> (relative: bool)
    ensures
        relative == is_relative_path(*path),
{
    path.is_relative()
}

/// `Path::parent`, made owned.
#[verifier::external_body]
fn path_parent(path: &PathBuf) -> (parent: Option<PathBuf>)
    ensures
        parent == parent_of(*path),
{
    path.parent().map(|p| p.to_path_buf())
}

/// `Path::join`.
#[verifier::external_body]
fn path_join(base: &PathBuf, path: &PathBuf) -> (joined_path: PathBuf)
    ensures
        joined_path == joined(*base, *path),
{
    base.join(path)
}

/// `PathBuf::clone`: the same path.
#[verifier::external_body]
fn path_copy(path: &PathBuf) -> (copy: PathBuf)
    ensures
        copy == *path,
{
    path.clone()
}

/// A settings file: what it is for, where it is, and what it holds.
#[derive(Debug)]
pub struct File<T> {
    description: &'static str,
    path: PathBuf,
    data: T,
}

impl<T> File<T> {
    pub closed spec fn description(&self) -> Seq<char> {
        self.description@
    }

    pub closed spec fn path(&self) -> PathBuf {
        self.path
    }

    pub closed spec fn contents(&self) -> T {
        self.data
    }

    /// A file that does not exist yet: it holds the default data.
    pub fn new(description: &'static str, path: PathBuf) -> (file: Self)
        where T: Default,
        ensures
            file.description() == description@,
            file.path() == path,
            call_ensures(T::default, (), file.contents()),
    {
        File { description, path, data: T::default() }
    }

    /// A file read from `path`, holding `data`.
    pub fn with_data(description: &'static str, path: PathBuf, data: T) -> (file: Self)
        ensures
            file.description() == description@,
            file.path() == path,
            file.contents() == data,
    {
        File { description, path, data }
    }

    pub fn data(&self) -> (data: &T)
        ensures
            *data == self.contents(),
    {
        &self.data
    }

    pub fn path_buf(&self) -> (path: &PathBuf)
        ensures
            *path == self.path(),
    {
        &self.path
    }

    /// How the file names itself in messages: its description, the word
    /// `file` and its path in single quotes.
    pub fn to_text(&self) -> (text: String)
        ensures
            text@ == self.description() + " file '"@ + displayed(self.path()) + "'"@,
    {
        let shown = display_path(&self.path);
        let text = String::from_str(self.description).concat(" file '").concat(shown.as_str()).concat("'");
        proof {
            reveal_strlit(" file '");
            reveal_strlit("'");
        }
        text
    }

    /// `path` as the file sees it: a relative path is taken from the
    /// file's directory, an absolute one as it is. The file's path must
    /// have a directory part.
    pub fn relative(&self, path: &PathBuf) -> (full: PathBuf)
        requires
            parent_of(self.path()) is Some,
        ensures
            is_relative_path(*path) ==> full == joined(parent_of(self.path())->0, *path),
            !is_relative_path(*path) ==> full == *path,
    {
        if path_is_relative(path) {
            match path_parent(&self.path) {
                Some(dir) => path_join(&dir, path),
                None => path_copy(path),
            }
        } else {
            path_copy(path)
        }
    }

    /// `relative`, or nothing when a relative `path` is given and the
    /// file's path has no directory part to take it from.
    pub fn try_relative(&self, path: &PathBuf) -> (full: Option<PathBuf>)
        ensures
            is_relative_path(*path) ==> match parent_of(self.path()) {
                Some(dir) => full == Some(joined(dir, *path)),
                None => full is None,
            },
            !is_relative_path(*path) ==> full == Some(*path),
    {
        if path_is_relative(path) {
            match path_parent(&self.path) {
                Some(dir) => Some(path_join(&dir, path)),
                None => None,
            }
        } else {
            Some(path_copy(path))
        }
    }

    pub fn describe(&self) -> (description: &'static str)
        ensures
            description@ == self.description(),
    {
        self.description
    }
}

} // verus!
