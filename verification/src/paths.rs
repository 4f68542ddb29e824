//! File names of the tools' outputs, derived from their inputs.
use vstd::prelude::*;
use std::path::Path;
use crate::text::{append_chars, chars_to_string, str_chars};

verus! {

/// The extension of a path (after the last `.` of its file name), as
/// `std::path::Path::extension` gives it.
pub uninterp spec fn path_extension(path: Seq<char>) -> Option<Seq<char>>;

/// The file stem of a path (its file name without the extension), as
/// `std::path::Path::file_stem` gives it.
pub uninterp spec fn path_file_stem(path: Seq<char>) -> Option<Seq<char>>;

/// The path with its file name replaced, as
/// `std::path::Path::with_file_name` gives it.
pub uninterp spec fn path_with_file_name(path: Seq<char>, name: Seq<char>) -> Seq<char>;

/// The path with its extension replaced, as `std::path::Path::with_extension`
/// gives it.
pub uninterp spec fn path_with_extension(path: Seq<char>, ext: Seq<char>) -> Seq<char>;

/// `std::path::Path::extension` of the path, as a string (the extension of a
/// path given as a string is itself valid UTF-8, so the conversion is
/// exact). The claim: the result is `path_extension` of the path, a
/// function of the path alone.
#[verifier::external_body]
fn extension(path: &str) -> (r: Option<String>)
    ensures
        match r {
            Some(s) => path_extension(path@) == Some(s@),
            None => path_extension(path@) is None,
        },
{
    match Path::new(path).extension() {
        Some(e) => Some(e.to_string_lossy().into_owned()),
        None => None,
    }
}

/// `std::path::Path::file_stem` of the path, as a string. The claim: the
/// result is `path_file_stem` of the path, a function of the path alone.
#[verifier::external_body]
fn file_stem(path: &str) -> (r: Option<String>)
    ensures
        match r {
            Some(s) => path_file_stem(path@) == Some(s@),
            None => path_file_stem(path@) is None,
        },
{
    match Path::new(path).file_stem() {
        Some(e) => Some(e.to_string_lossy().into_owned()),
        None => None,
    }
}

/// `std::path::Path::with_file_name`, as a string. The claim: the result is
/// `path_with_file_name` of the path and the name.
#[verifier::external_body]
fn with_file_name(path: &str, name: &str) -> (r: String)
    ensures
        r@ == path_with_file_name(path@, name@),
{
    Path::new(path).with_file_name(name).to_string_lossy().into_owned()
}

/// An extension that `std::path::PathBuf::set_extension` takes without a
/// panic: it holds no path separator (`/`, nor `\\` of other platforms).
pub open spec fn extension_ok(ext: Seq<char>) -> bool {
    !ext.contains('/') && !ext.contains('\\')
}

/// `std::path::Path::with_extension`, as a string. The claim: the result is
/// `path_with_extension` of the path and the extension. It panics on an
/// extension that holds a path separator, which `requires` leaves out.
#[verifier::external_body]
fn with_extension(path: &str, ext: &str) -> (r: String)
    requires
        extension_ok(ext@),
    ensures
        r@ == path_with_extension(path@, ext@),
{
    Path::new(path).with_extension(ext).to_string_lossy().into_owned()
}

/// `-copy`
pub open spec fn copy_suffix() -> Seq<char> {
    seq!['-', 'c', 'o', 'p', 'y']
}

/// The file that a copy of `original` goes to: the path the user gave, else
/// `{stem}-copy.{extension}` beside the original, with `bin` for a missing
/// extension and `copied-output` for a missing stem.
pub open spec fn copy_path_spec(original: Seq<char>, copy: Option<Seq<char>>) -> Seq<char> {
    match copy {
        Some(c) => c,
        None => {
            let ext = match path_extension(original) {
                Some(e) => e,
                None => seq!['b', 'i', 'n'],
            };
            let start = match path_file_stem(original) {
                Some(stem) => stem + copy_suffix(),
                None => seq!['c', 'o', 'p', 'i', 'e', 'd', '-', 'o', 'u', 't', 'p', 'u', 't'],
            };
            path_with_file_name(original, start + seq!['.'] + ext)
        },
    }
}

/// The file that a copy of `original` goes to (see `copy_path_spec`).
pub fn copy_file_path(original: &str, copy: Option<&str>) -> (r: String)
    ensures
        r@ == copy_path_spec(original@, match copy {
            Some(c) => Some(c@),
            None => None,
        }),
{
    match copy {
        Some(user_path) => user_path.to_owned(),
        None => {
            let ext = match extension(original) {
                Some(e) => str_chars(e.as_str()),
                None => {
                    let bin = ['b', 'i', 'n'];
                    let mut v: Vec<char> = Vec::new();
                    append_chars(&mut v, &bin);
                    v
                },
            };
            let mut start = match file_stem(original) {
                Some(stem) => {
                    let mut name = str_chars(stem.as_str());
                    let suffix = ['-', 'c', 'o', 'p', 'y'];
                    append_chars(&mut name, &suffix);
                    name
                },
                None => {
                    let dflt = ['c', 'o', 'p', 'i', 'e', 'd', '-', 'o', 'u', 't', 'p', 'u', 't'];
                    let mut v: Vec<char> = Vec::new();
                    append_chars(&mut v, &dflt);
                    v
                },
            };
            start.push('.');
            append_chars(&mut start, ext.as_slice());
            let ghost want = copy_path_spec(original@, None);
            let name = chars_to_string(start.as_slice());
            assert(name@ =~= {
                let e = match path_extension(original@) {
                    Some(e) => e,
                    None => seq!['b', 'i', 'n'],
                };
                let s = match path_file_stem(original@) {
                    Some(stem) => stem + copy_suffix(),
                    None => seq!['c', 'o', 'p', 'i', 'e', 'd', '-', 'o', 'u', 't', 'p', 'u', 't'],
                };
                s + seq!['.'] + e
            });
            with_file_name(original, name.as_str())
        },
    }
}

/// The file an output goes to: the one named, else the input with its
/// extension replaced by `ext`.
pub fn output_path(input: &str, output: Option<&str>, ext: &str) -> (r: String)
    requires
        extension_ok(ext@),
    ensures
        r@ == match output {
            Some(o) => o@,
            None => path_with_extension(input@, ext@),
        },
{
    match output {
        Some(o) => o.to_owned(),
        None => with_extension(input, ext),
    }
}

/// The bookmark file for a symbol file: the output named (with `.nbm`
/// added where it has no extension), else the input with the extension
/// `nbm`.
pub open spec fn bookmark_path_spec(input: Seq<char>, output: Option<Seq<char>>) -> Seq<char> {
    match output {
        Some(o) => if path_extension(o) is Some {
            o
        } else {
            path_with_extension(o, seq!['n', 'b', 'm'])
        },
        None => path_with_extension(input, seq!['n', 'b', 'm']),
    }
}

/// The bookmark file for a symbol file (see `bookmark_path_spec`).
pub fn bookmark_path(input: &str, output: Option<&str>) -> (r: String)
    ensures
        r@ == bookmark_path_spec(input@, match output {
            Some(o) => Some(o@),
            None => None,
        }),
{
    proof {
        reveal_strlit("nbm");
    }
    assert("nbm"@ =~= seq!['n', 'b', 'm']);
    proof {
        lemma_plain_extension(seq!['n', 'b', 'm']);
    }
    match output {
        Some(o) => match extension(o) {
            Some(_) => o.to_owned(),
            None => with_extension(o, "nbm"),
        },
        None => with_extension(input, "nbm"),
    }
}

/// An extension of letters holds no separator.
pub proof fn lemma_plain_extension(ext: Seq<char>)
    requires
        forall|i: int| 0 <= i < ext.len() ==> 'a' <= #[trigger] ext[i] <= 'z',
    ensures
        extension_ok(ext),
{
    if ext.contains('/') {
        let i = choose|i: int| 0 <= i < ext.len() && ext[i] == '/';
        assert('a' <= ext[i] <= 'z');
    }
    if ext.contains('\\') {
        let i = choose|i: int| 0 <= i < ext.len() && ext[i] == '\\';
        assert('a' <= ext[i] <= 'z');
    }
}

} // verus!
