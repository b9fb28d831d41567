//! The loader that finds sources in the file system.

use super::{Source, SourceContext, MAX_OFFSET};
use std::path::Path;
use vstd::prelude::*;

verus! {

/// `io::Error` of std: what a failed read reports, carried as it is.
#[verifier::external_type_specification]
#[verifier::external_body]
pub struct ExIoError(std::io::Error);

/// The path that `Path::join` of std makes of `base` and `name`, on the
/// platform that the library is built for.
pub uninterp spec fn joined_path(base: Seq<char>, name: Seq<char>) -> Seq<char>;

/// The path that `Path::parent` of std gives for `path`, or `None` where it
/// gives none, on the platform that the library is built for.
pub uninterp spec fn parent_path(path: Seq<char>) -> Option<Seq<char>>;

/// `Path::join` of std, on paths that are text. The result is the joined path
/// as it stands: nothing is made canonical, and the file system is not asked.
#[verifier::external_body]
fn path_join(base: &str, name: &str) -> (joined: String)
    ensures
        joined@ == joined_path(base@, name@),
{
    Path::new(base).join(name).to_string_lossy().into_owned()
}

/// `Path::parent` of std, on a path that is text: the path without its last
/// component, or `None` where the path ends in a root or is empty.
#[verifier::external_body]
fn path_parent(path: &str) -> (parent: Option<String>)
    ensures
        match parent {
            Some(dir) => parent_path(path@) == Some(dir@),
            None => parent_path(path@).is_none(),
        },
{
    Path::new(path).parent().map(|dir| dir.to_string_lossy().into_owned())
}

/// Why the file loader gave no source.
#[derive(Debug)]
pub enum FileLoaderError {
    /// The context names neither the entry point nor a file to resolve from.
    InvalidContext,
    /// The file at `path` could not be read.
    IO {
        /// What the file system reported.
        err: std::io::Error,
        /// The file that was asked for.
        path: String,
    },
}

/// The base from which a name is resolved under given hints: the base path
/// of the session for the entry point; else, for a file that asks, the
/// directory of that file, or the path of the file itself where it has no
/// parent; else none. There is a base exactly when the context has a hint.
pub open spec fn resolve_base(base_path: Seq<char>, cx: SourceContext) -> Option<Seq<char>> {
    if cx.is_entry() {
        Some(base_path)
    } else {
        match cx.relative_to() {
            Some(file) => Some(
                match parent_path(file) {
                    Some(dir) => dir,
                    None => file,
                },
            ),
            None => None,
        }
    }
}

/// Loads sources from files below a base path.
#[derive(Debug)]
pub struct FileLoader {
    /// The base path from where all file accesses will be resolved.
    base_path: String,
}

impl View for FileLoader {
    type V = Seq<char>;

    closed spec fn view(&self) -> Seq<char> {
        self.base_path@
    }
}

impl FileLoader {
    /// A loader whose entry points lie below `base_path`.
    pub fn new(base_path: &str) -> (loader: FileLoader)
        ensures
            loader@ == base_path@,
    {
        FileLoader { base_path: base_path.to_owned() }
    }

    /// The key of the source that `name` stands for under `cx`: `name`,
    /// joined to the base that [`resolve_base`] gives. The key is the path as
    /// joined: two spellings of one file give two keys.
    ///
    /// Succeeds exactly where `cx` has the entry hint or a file hint, and
    /// fails with [`FileLoaderError::InvalidContext`] where it has neither.
    pub fn resolve(&mut self, cx: &SourceContext, name: &str) -> (key: Result<
        String,
        FileLoaderError,
    >)
        ensures
            *final(self) == *old(self),
            key.is_ok() == (cx.is_entry() || cx.relative_to().is_some()),
            match resolve_base(old(self)@, *cx) {
                Some(base) => key matches Ok(k) && k@ == joined_path(base, name@),
                None => key matches Err(FileLoaderError::InvalidContext),
            },
    {
        if cx.has_entry() {
            return Ok(path_join(self.base_path.as_str(), name));
        }
        let file = match cx.file_path() {
            Some(file) => file,
            None => {
                return Err(FileLoaderError::InvalidContext);
            },
        };
        match path_parent(file) {
            Some(base) => Ok(path_join(base.as_str(), name)),
            None => Ok(path_join(file, name)),
        }
    }

    /// What loading `key` gives, given what reading the file at `key` gave:
    /// a source with the text that was read and no place yet, or the error
    /// of the file system together with the path.
    pub fn load(&mut self, key: &str, read: Result<String, std::io::Error>) -> (loaded: Result<
        Source,
        FileLoaderError,
    >)
        ensures
            *final(self) == *old(self),
            match read {
                Ok(contents) => loaded matches Ok(source) && source.text() == contents@
                    && source.start() == MAX_OFFSET && !source.hints().is_entry()
                    && source.hints().relative_to().is_none(),
                Err(err) => loaded matches Err(FileLoaderError::IO { err: e, path }) && e == err
                    && path@ == key@,
            },
    {
        match read {
            Ok(contents) => Ok(Source::new(contents)),
            Err(err) => Err(FileLoaderError::IO { err, path: key.to_owned() }),
        }
    }
}

} // verus!
