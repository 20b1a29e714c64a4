//! File paths.
//!
//! A `PathBuf` is a path of the platform that the program is built for.  How it
//! splits into parts, and what it reads as text, differs from platform to
//! platform but depends on nothing but the path, so the answers have names here
//! and are not spelled out.

use std::path::PathBuf;
use vstd::prelude::*;

verus! {

/// The standard library's owned path.
#[verifier::external_type_specification]
#[verifier::external_body]
pub struct ExPathBuf(std::path::PathBuf);

/// `PathBuf::clone` gives a path equal to the one it is called on.
pub assume_specification[ <std::path::PathBuf as std::clone::Clone>::clone ](
    path: &std::path::PathBuf,
) -> (copy: std::path::PathBuf)
    ensures
        copy == *path,
;

/// Whether a path is absolute on its platform.
pub uninterp spec fn absolute(path: PathBuf) -> bool;

/// A path without its last component, where it has one.
pub uninterp spec fn parent_of(path: PathBuf) -> Option<PathBuf>;

/// A path below a directory.
pub uninterp spec fn joined(directory: PathBuf, path: PathBuf) -> PathBuf;

/// The extension of the file name of a path, where there is one and it is valid
/// Unicode.
pub uninterp spec fn extension_of(path: PathBuf) -> Option<Seq<char>>;

/// The text of a path, with a replacement for what is not valid Unicode.
pub uninterp spec fn text_of(path: PathBuf) -> Seq<char>;

/// The path that a text names.
pub uninterp spec fn path_named(text: Seq<char>) -> PathBuf;

/// Whether a path is absolute.
///
/// Calls `Path::is_absolute`, whose answer depends on the path alone.
#[verifier::external_body]
fn is_absolute(path: &PathBuf) -> (answer: bool)
    ensures
        answer == absolute(*path),
{
    path.is_absolute()
}

/// The path without its last component.
///
/// Calls `Path::parent`, whose answer depends on the path alone.
#[verifier::external_body]
fn parent(path: &PathBuf) -> (parent: Option<PathBuf>)
    ensures
        parent == parent_of(*path),
{
    path.parent().map(|parent| parent.to_path_buf())
}

/// A path below a directory.
///
/// Calls `Path::join`, whose result depends on the two paths alone.
#[verifier::external_body]
fn join(directory: &PathBuf, path: &PathBuf) -> (result: PathBuf)
    ensures
        result == joined(*directory, *path),
{
    directory.join(path)
}

/// The extension of a path, where it has one in valid Unicode.
///
/// Calls `Path::extension`, whose answer depends on the path alone.
#[verifier::external_body]
pub(crate) fn extension(path: &PathBuf) -> (extension: Option<String>)
    ensures
        extension_of(*path) == match extension {
            Some(extension) => Some(extension@),
            None => None,
        },
{
    path.extension().and_then(|extension| extension.to_str()).map(str::to_owned)
}

/// The text of a path.
///
/// Calls `Path::to_string_lossy`, whose result depends on the path alone.
#[verifier::external_body]
pub(crate) fn lossy_text(path: &PathBuf) -> (text: String)
    ensures
        text@ == text_of(*path),
{
    path.to_string_lossy().into_owned()
}

/// The path that a text names.
///
/// Calls `PathBuf::from` on a `str`, whose result depends on the text alone.
#[verifier::external_body]
pub(crate) fn path_from_text(text: &str) -> (path: PathBuf)
    ensures
        path == path_named(text@),
{
    PathBuf::from(text)
}

/// A path that is absolute stays as it is, and so does one without a directory
/// to join it to.
pub open spec fn chosen_path(path: PathBuf, absolute: bool, joined: Option<PathBuf>) -> PathBuf {
    match joined {
        Some(joined) => if absolute {
            path
        } else {
            joined
        },
        None => path,
    }
}

/// Chooses between a path and the same path joined to a directory.
pub fn choose_path(path: PathBuf, absolute: bool, joined: Option<PathBuf>) -> (chosen: PathBuf)
    ensures
        chosen == chosen_path(path, absolute, joined),
{
    match joined {
        Some(joined) => if absolute {
            path
        } else {
            joined
        },
        None => path,
    }
}

/// A relative path resolved against a directory.  Without a directory the path
/// is kept.
pub open spec fn resolved_path(config_dir: Option<PathBuf>, path: PathBuf) -> PathBuf {
    chosen_path(
        path,
        absolute(path),
        match config_dir {
            Some(directory) => Some(joined(directory, path)),
            None => None,
        },
    )
}

/// Resolves a relative path against a directory.  Without a directory the path
/// is kept.
pub fn resolve_path(config_dir: Option<PathBuf>, path: PathBuf) -> (resolved: PathBuf)
    ensures
        resolved == resolved_path(config_dir, path),
{
    let absolute = is_absolute(&path);
    let joined = match &config_dir {
        Some(directory) => Some(join(directory, &path)),
        None => None,
    };
    choose_path(path, absolute, joined)
}

/// The directory of a configuration file.
pub open spec fn directory_spec(config_path: Option<PathBuf>) -> Option<PathBuf> {
    match config_path {
        Some(path) => parent_of(path),
        None => None,
    }
}

/// The directory of a configuration file.
pub(crate) fn directory_of(config_path: Option<&PathBuf>) -> (directory: Option<PathBuf>)
    ensures
        directory == directory_spec(
            match config_path {
                Some(path) => Some(*path),
                None => None,
            },
        ),
{
    match config_path {
        Some(path) => parent(path),
        None => None,
    }
}

/// Where a file is that a path names: an absolute path says so itself; a relative one is
/// below the directory, where there is one; and the directory is that of the configuration
/// file.
pub proof fn lemma_relative_paths_are_below_the_directory(
    config_path: Option<PathBuf>,
    directory: Option<PathBuf>,
    path: PathBuf,
)
    ensures
        absolute(path) ==> resolved_path(directory, path) == path,
        directory is None ==> resolved_path(directory, path) == path,
        !absolute(path) && directory is Some ==> resolved_path(directory, path) == joined(
            directory.unwrap(),
            path,
        ),
        config_path is None ==> directory_spec(config_path) is None,
        config_path is Some ==> directory_spec(config_path) == parent_of(config_path.unwrap()),
{
}

} // verus!
