//! What the library reads from a path: the name of its last component and the
//! name of the folder that holds it.
//!
//! Where a path is cut into components is the platform's rule: the readings
//! are those of `std::path::Path` on the platform that the library is built
//! for, and are named here without being spelled out. What is made of a file
//! name once it is known, its stem and its extension, is this library's own
//! and is stated exactly.

use crate::text::text_of;
use vstd::prelude::*;

verus! {

/// A path with what was read from it: the name of its last component and
/// the name of its parent folder, each absent where the path has none.
pub struct FileParts {
    pub path: String,
    pub file_name: Option<String>,
    pub folder: Option<String>,
}

/// What the parts of a path hold, as plain values.
pub struct FilePartsView {
    pub path: Seq<char>,
    pub file_name: Option<Seq<char>>,
    pub folder: Option<Seq<char>>,
}

impl View for FileParts {
    type V = FilePartsView;

    open spec fn view(&self) -> FilePartsView {
        FilePartsView {
            path: self.path@,
            file_name: text_of(self.file_name),
            folder: text_of(self.folder),
        }
    }
}

/// The final component of a path, as `Path::file_name` reads it; none where
/// the path has no such component or where it is no text.
pub uninterp spec fn file_name_text(path: Seq<char>) -> Option<Seq<char>>;

/// A path without its final component, as `Path::parent` reads it; none where
/// the path ends in a root or is empty.
pub uninterp spec fn parent_text(path: Seq<char>) -> Option<Seq<char>>;

/// The name of the folder that holds the last component of a path: the
/// final component of its parent.
pub open spec fn folder_text(path: Seq<char>) -> Option<Seq<char>> {
    match parent_text(path) {
        Some(parent) => file_name_text(parent),
        None => None,
    }
}

/// The parts of a path.
pub open spec fn parts_of(path: Seq<char>) -> FilePartsView {
    FilePartsView { path: path, file_name: file_name_text(path), folder: folder_text(path) }
}

/// `Path::file_name`: the final component of the path, if it has one. By the
/// rules of one platform the component depends on the text of the path
/// alone; which part of the path it is, is not claimed.
#[verifier::external_body]
fn file_name_of(path: &str) -> (name: Option<String>)
    ensures
        text_of(name) == file_name_text(path@),
{
    std::path::Path::new(path).file_name()?.to_str().map(String::from)
}

/// `Path::parent`: the path without its final component, if it has one. By
/// the rules of one platform the parent depends on the text of the path
/// alone; where the path is cut is not claimed.
#[verifier::external_body]
fn parent_of(path: &str) -> (parent: Option<String>)
    ensures
        text_of(parent) == parent_text(path@),
{
    std::path::Path::new(path).parent()?.to_str().map(String::from)
}

/// Reads the parts of a path: the path as it was given, its file name, and
/// the name of the folder that holds it.
pub fn split_path(path: &str) -> (parts: FileParts)
    ensures
        parts@ == parts_of(path@),
{
    let file_name = file_name_of(path);
    let folder = match parent_of(path) {
        Some(parent) => file_name_of(parent.as_str()),
        None => None,
    };
    FileParts { path: String::from_str(path), file_name, folder }
}

/// Where a file name is cut into stem and extension: at its last dot, unless
/// the name has no dot, or only the one it begins with, or is `..`.
pub open spec fn cut(name: Seq<char>) -> Option<int> {
    match name.index_of_last('.') {
        Some(i) => if i > 0 && name != seq!['.', '.'] {
            Some(i)
        } else {
            None
        },
        None => None,
    }
}

/// The stem of a file name: what stands before the cut, or the whole name
/// where there is no cut.
pub open spec fn stem_of(name: Seq<char>) -> Seq<char> {
    match cut(name) {
        Some(i) => name.take(i),
        None => name,
    }
}

/// The extension of a file name: what stands behind the cut, or nothing where
/// there is no cut.
pub open spec fn extension_of(name: Seq<char>) -> Seq<char> {
    match cut(name) {
        Some(i) => name.skip(i + 1),
        None => Seq::empty(),
    }
}

fn find_cut(name: &Vec<char>) -> (at: Option<usize>)
    ensures
        match at {
            Some(i) => cut(name@) == Some(i as int) && 0 < i < name.len(),
            None => cut(name@) is None,
        },
{
    let mut i: usize = name.len();
    while i > 0 && name[i - 1] != '.'
        invariant
            i <= name.len(),
            forall|k: int| i <= k < name.len() ==> name@[k] != '.',
        decreases i,
    {
        i -= 1;
    }
    proof {
        name@.index_of_last_ensures('.');
        if i > 0 {
            assert(name@.contains('.')) by {
                assert(name@[i - 1] == '.');
            }
        }
    }
    if i <= 1 {
        return None;
    }
    if name.len() == 2 && name[0] == '.' {
        assert(name@ =~= seq!['.', '.']);
        return None;
    }
    proof {
        if name@ == seq!['.', '.'] {
            assert(name@.len() == 2);
            assert(name@[0] == '.');
        }
    }
    Some(i - 1)
}

/// The stem of a file name.
pub fn stem(name: &Vec<char>) -> (r: Vec<char>)
    ensures
        r@ == stem_of(name@),
{
    match find_cut(name) {
        Some(i) => crate::text::slice_of(name, 0, i),
        None => {
            let r = crate::text::slice_of(name, 0, name.len());
            assert(r@ =~= name@);
            r
        },
    }
}

/// The extension of a file name.
pub fn extension(name: &Vec<char>) -> (r: Vec<char>)
    ensures
        r@ == extension_of(name@),
{
    match find_cut(name) {
        Some(i) => crate::text::slice_of(name, i + 1, name.len()),
        None => Vec::new(),
    }
}

} // verus!
