//! Search by name: which entries of a folder a word finds.

use crate::path::{FileParts, FilePartsView};
use crate::text::{chars_of, contains, has_substring, lowercase, or_empty, to_lowercase};
use vstd::prelude::*;

verus! {

/// Whether a word finds an entry: the entry's name holds the word, both in
/// lowercase. An entry without a name is found by the empty word alone.
pub open spec fn name_matches(parts: FilePartsView, word: Seq<char>) -> bool {
    has_substring(lowercase(or_empty(parts.file_name)), lowercase(word))
}

/// Whether a word finds the entry with these parts.
pub fn entry_matches(parts: &FileParts, word: &str) -> (r: bool)
    ensures
        r == name_matches(parts@, word@),
{
    let name = match &parts.file_name {
        Some(n) => to_lowercase(n.as_str()),
        None => to_lowercase(String::new().as_str()),
    };
    let wanted = to_lowercase(word);
    contains(&chars_of(name.as_str()), &chars_of(wanted.as_str()))
}

} // verus!
