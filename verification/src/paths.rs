//! Where the output catalog of a template goes: the output pattern with the
//! language code and the template's base name filled in, beside the template.

use crate::text::{replace_all, substitute};
use std::path::Path;
use vstd::prelude::*;

verus! {

/// The file stem of a path as `Path::file_stem` gives it in the path syntax
/// of the platform: the last component without its extension.
pub uninterp spec fn path_file_stem(path: Seq<char>) -> Option<Seq<char>>;

/// The parent of a path as `Path::parent` gives it in the path syntax of the
/// platform: the path without its last component.
pub uninterp spec fn path_parent(path: Seq<char>) -> Option<Seq<char>>;

/// A directory and a name joined as `Path::join` joins them in the path
/// syntax of the platform.
pub uninterp spec fn path_join(dir: Seq<char>, name: Seq<char>) -> Seq<char>;

/// `Path::file_stem`, on a path and with a result that are both text.
#[verifier::external_body]
fn file_stem(path: &str) -> (r: Option<String>)
    ensures
        r.deep_view() == path_file_stem(path@),
{
    Path::new(path).file_stem().and_then(|s| s.to_str()).map(String::from)
}

/// `Path::parent`, on a path and with a result that are both text.
#[verifier::external_body]
fn parent_dir(path: &str) -> (r: Option<String>)
    ensures
        r.deep_view() == path_parent(path@),
{
    Path::new(path).parent().and_then(|p| p.to_str()).map(String::from)
}

/// `Path::join`, on paths and with a result that are all text.
#[verifier::external_body]
fn join_path(dir: &str, name: &str) -> (r: String)
    ensures
        r@ == path_join(dir@, name@),
{
    Path::new(dir).join(name).to_string_lossy().into_owned()
}

/// Why no output path could be built.
#[derive(Debug, Clone, Copy, PartialEq, Eq, Structural)]
pub enum PathError {
    /// The input path names no file.
    InvalidFilename,
    /// The input path has no parent directory.
    NoDirectory,
}

/// The name of the output file: the pattern with `{lang}` replaced by the
/// language code and then `{name}` by the base name of the input file.
pub open spec fn file_name_text(
    stem: Seq<char>,
    target_lang: Seq<char>,
    pattern: Seq<char>,
) -> Seq<char> {
    replace_all(replace_all(pattern, "{lang}"@, target_lang), "{name}"@, stem)
}

/// The output path for an input path whose file stem and parent are given.
pub open spec fn output_path_for(
    stem: Option<Seq<char>>,
    parent: Option<Seq<char>>,
    target_lang: Seq<char>,
    pattern: Seq<char>,
) -> Result<Seq<char>, PathError> {
    match stem {
        None => Err(PathError::InvalidFilename),
        Some(stem) => match parent {
            None => Err(PathError::NoDirectory),
            Some(dir) => Ok(path_join(dir, file_name_text(stem, target_lang, pattern))),
        },
    }
}

/// What a built path holds.
pub open spec fn path_view(r: Result<String, PathError>) -> Result<Seq<char>, PathError> {
    match r {
        Ok(path) => Ok(path@),
        Err(e) => Err(e),
    }
}

/// The name of the output file for a base name, a language and a pattern.
pub fn output_file_name(stem: &str, target_lang: &str, pattern: &str) -> (out: String)
    ensures
        out@ == file_name_text(stem@, target_lang@, pattern@),
{
    let with_lang = substitute(pattern, "{lang}", target_lang);
    substitute(with_lang.as_str(), "{name}", stem)
}

/// The output path for `input_path`: the output file name, in the directory
/// of the input file. A path that names no file gives `InvalidFilename`.
pub fn build_output_path(input_path: &str, target_lang: &str, pattern: &str) -> (r: Result<
    String,
    PathError,
>)
    ensures
        path_view(r) == output_path_for(
            path_file_stem(input_path@),
            path_parent(input_path@),
            target_lang@,
            pattern@,
        ),
{
    let stem = match file_stem(input_path) {
        Some(stem) => stem,
        None => {
            return Err(PathError::InvalidFilename);
        },
    };
    let dir = match parent_dir(input_path) {
        Some(dir) => dir,
        None => {
            return Err(PathError::NoDirectory);
        },
    };
    let name = output_file_name(stem.as_str(), target_lang, pattern);
    Ok(join_path(dir.as_str(), name.as_str()))
}

} // verus!
