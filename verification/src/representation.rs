//! The short description of a file that is handed to the embedding model in
//! place of the file itself.

use crate::path::{
    extension, extension_of, parts_of, split_path, stem, stem_of, FileParts, FilePartsView,
};
use crate::text::{
    chars_of, eq_str, has_substring, lowercase, or_empty, push_chars, push_str, str_contains,
    string_of, text_of, to_lowercase,
};
use vstd::prelude::*;

verus! {

/// `c`, or a space in its place where it is `_`, `-` or `.`.
pub open spec fn spaced_char(c: char) -> char {
    if c == '_' || c == '-' || c == '.' {
        ' '
    } else {
        c
    }
}

/// `s` with every `_`, `-` and `.` replaced by a space.
pub open spec fn spaced(s: Seq<char>) -> Seq<char> {
    s.map_values(|c: char| spaced_char(c))
}

/// The name under which a file is described: its stem, with spaces for
/// separators.
pub open spec fn described_name(parts: FilePartsView) -> Seq<char> {
    spaced(stem_of(or_empty(parts.file_name)))
}

/// The extension under which a file is described: its own, in lowercase.
pub open spec fn described_extension(parts: FilePartsView) -> Seq<char> {
    lowercase(extension_of(or_empty(parts.file_name)))
}

/// The sentence every description begins with.
pub open spec fn base_sentence(ext: Seq<char>, name: Seq<char>, folder: Seq<char>) -> Seq<char> {
    "This is a "@ + ext + " file named "@ + name + " located in "@ + folder + " folder. "@
}

/// Whether the extension is one of an image.
pub open spec fn is_image(ext: Seq<char>) -> bool {
    ext == "png"@ || ext == "jpg"@ || ext == "jpeg"@ || ext == "webp"@
}

/// `sentence` where `wanted` holds, nothing otherwise.
pub open spec fn when(wanted: bool, sentence: Seq<char>) -> Seq<char> {
    if wanted {
        sentence
    } else {
        Seq::empty()
    }
}

/// What is said of an image: that it is one, and what its name suggests.
pub open spec fn image_hint(name: Seq<char>) -> Seq<char> {
    "This file is an image or photo. "@ + when(
        has_substring(name, "logo"@),
        "It is likely a logo image. "@,
    ) + when(has_substring(name, "screenshot"@), "It may be a screenshot. "@) + when(
        has_substring(name, "icon"@),
        "It may be an icon or logo. "@,
    )
}

/// What the extension adds to the description; nothing for an extension that
/// is not known.
pub open spec fn category_hint(ext: Seq<char>, name: Seq<char>) -> Seq<char> {
    if is_image(ext) {
        image_hint(name)
    } else if ext == "pdf"@ {
        "This file is a PDF document. "@
    } else if ext == "txt"@ || ext == "md"@ {
        "This file is a text document. "@
    } else if ext == "exe"@ || ext == "msi"@ {
        "This file is an installer or application. "@
    } else {
        Seq::empty()
    }
}

/// The description made of an extension, a name and a folder.
pub open spec fn description(ext: Seq<char>, name: Seq<char>, folder: Seq<char>) -> Seq<char> {
    base_sentence(ext, name, folder) + category_hint(ext, name)
}

/// The description of a file whose name and folder are `parts`, without its
/// content.
pub open spec fn plain_description(parts: FilePartsView) -> Seq<char> {
    description(described_extension(parts), described_name(parts), or_empty(parts.folder))
}

/// At most this many bytes of a file's content are added to its description.
pub const CONTENT_CAP: usize = 8192;

/// The text that bytes hold, as `String::from_utf8_lossy` reads them.
pub uninterp spec fn lossy_text(bytes: Seq<u8>) -> Seq<char>;

/// Whether files with this extension have their content added: the plain
/// text files.
pub open spec fn takes_content(ext: Seq<char>) -> bool {
    ext == "txt"@ || ext == "md"@
}

/// The bytes of a content that are added: all of them up to the cap, the
/// first [`CONTENT_CAP`] beyond it.
pub open spec fn capped(content: Seq<u8>) -> Seq<u8> {
    if content.len() <= CONTENT_CAP {
        content
    } else {
        content.take(CONTENT_CAP as int)
    }
}

/// What a file's content adds to its description: the text of its capped
/// bytes where the extension takes content and the content was read, nothing
/// otherwise.
pub open spec fn grounding(parts: FilePartsView, content: Option<Seq<u8>>) -> Seq<char> {
    match content {
        Some(bytes) => when(takes_content(described_extension(parts)), lossy_text(capped(bytes))),
        None => Seq::empty(),
    }
}

/// The representation of a file: its description, and behind it what its
/// content adds.
pub open spec fn representation(parts: FilePartsView, content: Option<Seq<u8>>) -> Seq<char> {
    plain_description(parts) + grounding(parts, content)
}

/// The bytes of an optional content, where there is one.
pub open spec fn bytes_of(content: Option<Vec<u8>>) -> Option<Seq<u8>> {
    match content {
        Some(bytes) => Some(bytes@),
        None => None,
    }
}

/// The characters of an optional string.
pub fn chars_or_empty(o: &Option<String>) -> (v: Vec<char>)
    ensures
        v@ == or_empty(text_of(*o)),
{
    match o {
        Some(s) => chars_of(s.as_str()),
        None => Vec::new(),
    }
}

fn space_out(s: &Vec<char>) -> (r: Vec<char>)
    ensures
        r@ == spaced(s@),
{
    let mut r: Vec<char> = Vec::new();
    let mut i: usize = 0;
    while i < s.len()
        invariant
            i <= s.len(),
            r@ == spaced(s@).take(i as int),
        decreases s.len() - i,
    {
        let c = s[i];
        let d = if c == '_' || c == '-' || c == '.' {
            ' '
        } else {
            c
        };
        r.push(d);
        assert(spaced(s@).take(i as int).push(d) =~= spaced(s@).take(i + 1));
        i += 1;
    }
    assert(spaced(s@).take(s.len() as int) =~= spaced(s@));
    r
}

fn push_category_hint(out: &mut Vec<char>, ext: &Vec<char>, name: &Vec<char>)
    ensures
        final(out)@ == old(out)@ + category_hint(ext@, name@),
{
    if eq_str(ext, "png") || eq_str(ext, "jpg") || eq_str(ext, "jpeg") || eq_str(ext, "webp") {
        push_str(out, "This file is an image or photo. ");
        let ghost a = out@;
        if str_contains(name, "logo") {
            push_str(out, "It is likely a logo image. ");
        }
        let ghost b = out@;
        assert(b =~= a + when(has_substring(name@, "logo"@), "It is likely a logo image. "@));
        if str_contains(name, "screenshot") {
            push_str(out, "It may be a screenshot. ");
        }
        let ghost c = out@;
        assert(c =~= b + when(has_substring(name@, "screenshot"@), "It may be a screenshot. "@));
        if str_contains(name, "icon") {
            push_str(out, "It may be an icon or logo. ");
        }
        assert(out@ =~= c + when(has_substring(name@, "icon"@), "It may be an icon or logo. "@));
        assert(out@ =~= old(out)@ + image_hint(name@));
    } else if eq_str(ext, "pdf") {
        push_str(out, "This file is a PDF document. ");
    } else if eq_str(ext, "txt") || eq_str(ext, "md") {
        push_str(out, "This file is a text document. ");
    } else if eq_str(ext, "exe") || eq_str(ext, "msi") {
        push_str(out, "This file is an installer or application. ");
    } else {
        assert(out@ =~= old(out)@ + Seq::<char>::empty());
    }
}

/// Writes the description made of an extension, a name and a folder.
pub fn describe(ext: &Vec<char>, name: &Vec<char>, folder: &Vec<char>) -> (text: Vec<char>)
    ensures
        text@ == description(ext@, name@, folder@),
{
    let mut out: Vec<char> = Vec::new();
    push_str(&mut out, "This is a ");
    push_chars(&mut out, ext);
    push_str(&mut out, " file named ");
    push_chars(&mut out, name);
    push_str(&mut out, " located in ");
    push_chars(&mut out, folder);
    push_str(&mut out, " folder. ");
    assert(out@ =~= base_sentence(ext@, name@, folder@));
    push_category_hint(&mut out, ext, name);
    out
}

/// The extension under which a file is described.
pub fn lowercase_extension(parts: &FileParts) -> (ext: Vec<char>)
    ensures
        ext@ == described_extension(parts@),
{
    let file_name = chars_or_empty(&parts.file_name);
    let raw_ext = string_of(&extension(&file_name));
    chars_of(to_lowercase(raw_ext.as_str()).as_str())
}

/// `String::from_utf8_lossy`: the bytes read as UTF-8, with the replacement
/// character in place of every run of bytes that is no valid UTF-8. The
/// result depends on the bytes alone.
#[verifier::external_body]
fn text_from_bytes(bytes: &Vec<u8>) -> (r: String)
    ensures
        r@ == lossy_text(bytes@),
{
    String::from_utf8_lossy(bytes.as_slice()).into_owned()
}

/// Whether files with this extension, given in lowercase, have their
/// content added.
pub fn is_plain_text(ext: &Vec<char>) -> (r: bool)
    ensures
        r == takes_content(ext@),
{
    eq_str(ext, "txt") || eq_str(ext, "md")
}

/// Whether the content of this file is wanted for its description. Where it
/// is not, the file need not be read.
pub fn wants_content(parts: &FileParts) -> (r: bool)
    ensures
        r == takes_content(described_extension(parts@)),
{
    is_plain_text(&lowercase_extension(parts))
}

fn cap(content: &Vec<u8>) -> (r: Vec<u8>)
    ensures
        r@ == capped(content@),
{
    let n: usize = if content.len() <= CONTENT_CAP {
        content.len()
    } else {
        CONTENT_CAP
    };
    let mut r: Vec<u8> = Vec::new();
    let mut i: usize = 0;
    while i < n
        invariant
            i <= n <= content.len(),
            r@ == content@.take(i as int),
        decreases n - i,
    {
        r.push(content[i]);
        assert(content@.take(i as int).push(content@[i as int]) =~= content@.take(i + 1));
        i += 1;
    }
    assert(content@.take(content.len() as int) =~= content@);
    r
}

/// The representation of a file, from the parts of its path and its content:
/// the base sentence with the lowercase extension, the stem with spaces for
/// separators and the folder, then what the extension adds, and for a plain
/// text file whose content was read the text of the first bytes of the
/// content, up to the cap. `content` is absent where the file was not or
/// could not be read; the description then stands alone.
pub fn representation_of(parts: &FileParts, content: &Option<Vec<u8>>) -> (text: String)
    ensures
        text@ == representation(parts@, bytes_of(*content)),
{
    let name = space_out(&stem(&chars_or_empty(&parts.file_name)));
    let ext = lowercase_extension(parts);
    let folder = chars_or_empty(&parts.folder);
    let wanted = is_plain_text(&ext);
    let mut text = string_of(&describe(&ext, &name, &folder));
    proof {
        assert(text@ + Seq::<char>::empty() =~= text@);
    }
    match content {
        Some(bytes) => {
            if wanted {
                let tail = text_from_bytes(&cap(bytes));
                text.append(tail.as_str());
            }
        },
        None => {},
    }
    text
}

/// The representation of the file at `path` whose content is `content`: that
/// of the parts of the path. It is the same text whenever the path and the
/// content are the same, and there is one for every path.
pub fn build_representation(path: &str, content: &Option<Vec<u8>>) -> (text: String)
    ensures
        text@ == representation(parts_of(path@), bytes_of(*content)),
{
    let parts = split_path(path);
    representation_of(&parts, content)
}

/// Every representation begins with the base sentence.
pub proof fn lemma_representation_begins_with_base(parts: FilePartsView, content: Option<Seq<u8>>)
    ensures
        representation(parts, content).len() >= "This is a "@.len(),
        representation(parts, content).take("This is a "@.len() as int) == "This is a "@,
{
    let head = "This is a "@;
    let text = representation(parts, content);
    assert(text.take(head.len() as int) =~= head);
}

} // verus!
