//! Paths as the library sees them: UTF-8 strings, taken apart by `std::path`.

use vstd::prelude::*;
use vstd::utf8::encode_utf8;

verus! {

/// The final component of a path, as `std::path::Path::file_name` returns it.
pub uninterp spec fn spec_path_file_name(path: Seq<char>) -> Option<Seq<char>>;

/// The path without its final component, as `std::path::Path::parent` returns it.
pub uninterp spec fn spec_path_parent(path: Seq<char>) -> Option<Seq<char>>;

/// Whether two paths are equal as `std::path::Path` compares them: component
/// by component, so that repeated separators, a trailing separator or an
/// inner `.` make no difference.
pub uninterp spec fn spec_same_path(left: Seq<char>, right: Seq<char>) -> bool;

/// Whether two paths name the same path: equal strings always do, as `Path`
/// is `Eq`; otherwise as `spec_same_path` says.
pub open spec fn paths_match(left: Seq<char>, right: Seq<char>) -> bool {
    left == right || spec_same_path(left, right)
}

/// The string mapped to lowercase, as `str::to_lowercase` returns it.
pub uninterp spec fn spec_to_lowercase(text: Seq<char>) -> Seq<char>;

/// The extension of a file name, as documented for `std::path::Path::extension`:
/// none without an embedded `.`, none for a name whose only `.` is its first
/// character, otherwise everything after the final `.`.
pub open spec fn extension_of_file_name(name: Seq<char>) -> Option<Seq<char>> {
    match name.index_of_last('.') {
        None => None,
        Some(dot) => if dot == 0 { None } else { Some(name.skip(dot + 1)) },
    }
}

/// The extension of a path: that of its file name, if it has one.
pub open spec fn spec_path_extension(path: Seq<char>) -> Option<Seq<char>> {
    match spec_path_file_name(path) {
        None => None,
        Some(name) => extension_of_file_name(name),
    }
}

/// `std::path::Path::file_name`. Trusted: the result is the final path
/// component named by `spec_path_file_name`; what that component is for a
/// given path (separators, `.` and `..` handling) is left to `std`.
#[verifier::external_body]
pub fn path_file_name(path: &str) -> (name: Option<String>)
    ensures
        match name {
            Some(n) => spec_path_file_name(path@) == Some(n@),
            None => spec_path_file_name(path@) is None,
        },
{
    std::path::Path::new(path).file_name().map(|n| n.to_string_lossy().into_owned())
}

/// `PartialEq` of `std::path::Path`. Trusted: equal strings compare equal
/// and the comparison is symmetric (`Path` is `Eq`); otherwise the result is
/// the comparison named by `spec_same_path`. Which different spellings of a
/// path compare equal is left to `std`.
#[verifier::external_body]
pub fn same_path(left: &str, right: &str) -> (same: bool)
    ensures
        same == (left@ == right@ || spec_same_path(left@, right@)),
        same == (right@ == left@ || spec_same_path(right@, left@)),
{
    std::path::Path::new(left) == std::path::Path::new(right)
}

/// `std::path::Path::parent`. Trusted: the result is the parent named by
/// `spec_path_parent`; how `std` splits components is left unsaid.
#[verifier::external_body]
pub fn path_parent(path: &str) -> (parent: Option<String>)
    ensures
        match parent {
            Some(p) => spec_path_parent(path@) == Some(p@),
            None => spec_path_parent(path@) is None,
        },
{
    std::path::Path::new(path).parent().map(|p| p.to_string_lossy().into_owned())
}

/// The extension of a path, as `std::path::Path::extension` documents it:
/// taken from the file name, none without an embedded `.` or when the only
/// `.` is the first character, otherwise everything after the final `.`.
pub fn path_extension(path: &str) -> (extension: Option<String>)
    ensures
        match extension {
            Some(e) => spec_path_extension(path@) == Some(e@),
            None => spec_path_extension(path@) is None,
        },
{
    let name = match path_file_name(path) {
        Some(name) => name,
        None => return None,
    };
    let text = name.as_str();
    let count = text.unicode_len();
    let mut end = count;
    while end > 0
        invariant
            end <= count,
            count == text@.len(),
            forall|j: int| end <= j < count ==> text@[j] != '.',
        ensures
            end <= count,
            forall|j: int| end <= j < count ==> text@[j] != '.',
            end == 0 || text@[end - 1] == '.',
        decreases end,
    {
        if text.get_char(end - 1) == '.' {
            break;
        }
        end = end - 1;
    }
    proof {
        text@.index_of_last_ensures('.');
        assert(text@ == name@);
        if end == 0 {
            assert(!text@.contains('.'));
        } else {
            assert(text@[end - 1] == '.');
            let last = text@.index_of_last('.');
            assert(last == Some(end - 1)) by {
                assert(text@.contains('.')) by {
                    assert(text@[end - 1] == '.');
                }
                let k = last->0;
                if k < end - 1 {
                    assert(text@[end - 1] != '.');
                }
            }
        }
    }
    if end <= 1 {
        return None;
    }
    let extension = text.substring_char(end, count).to_owned();
    assert(extension@ == name@.skip(end as int));
    Some(extension)
}

/// `str::to_lowercase`. Trusted: the result is the Unicode lowercase
/// mapping named by `spec_to_lowercase`, which depends on the text alone.
#[verifier::external_body]
pub fn to_lowercase(text: &str) -> (lower: String)
    ensures
        lower@ == spec_to_lowercase(text@),
{
    text.to_lowercase()
}

/// The ASCII lowercase of a byte.
pub open spec fn ascii_lower(byte: u8) -> u8 {
    if 65 <= byte <= 90 { (byte + 32) as u8 } else { byte }
}

/// Byte strings that are equal once ASCII letters are lowercased.
pub open spec fn ascii_caseless_eq(left: Seq<u8>, right: Seq<u8>) -> bool {
    left.len() == right.len() && forall|i: int| 0 <= i < left.len() ==> ascii_lower(#[trigger] left[i]) == ascii_lower(right[i])
}

/// ASCII case-insensitive equality of two byte strings.
pub fn eq_ignore_ascii_case(left: &[u8], right: &[u8]) -> (equal: bool)
    ensures
        equal == ascii_caseless_eq(left@, right@),
{
    if left.len() != right.len() {
        return false;
    }
    let mut i: usize = 0;
    while i < left.len()
        invariant
            left@.len() == right@.len(),
            i <= left@.len(),
            forall|j: int| 0 <= j < i ==> ascii_lower(#[trigger] left@[j]) == ascii_lower(right@[j]),
        decreases left@.len() - i,
    {
        let l = left[i];
        let r = right[i];
        let l_lower = if 65 <= l && l <= 90 { l + 32 } else { l };
        let r_lower = if 65 <= r && r <= 90 { r + 32 } else { r };
        if l_lower != r_lower {
            return false;
        }
        i += 1;
    }
    true
}

/// The bytes of "nfo".
pub open spec fn nfo_extension() -> Seq<u8> {
    seq![110u8, 102u8, 111u8]
}

/// Whether a path names an NFO file: its extension is "nfo" in any ASCII case.
pub open spec fn spec_is_nfo_path(path: Seq<char>) -> bool {
    match spec_path_extension(path) {
        Some(extension) => ascii_caseless_eq(encode_utf8(extension), nfo_extension()),
        None => false,
    }
}

/// Whether a path names an NFO file (case-insensitive `.nfo` extension).
pub fn is_nfo_path(path: &str) -> (is_nfo: bool)
    ensures
        is_nfo == spec_is_nfo_path(path@),
{
    match path_extension(path) {
        None => false,
        Some(extension) => {
            let nfo: [u8; 3] = [110, 102, 111];
            assert(nfo@ == nfo_extension());
            eq_ignore_ascii_case(extension.as_str().as_bytes(), nfo.as_slice())
        },
    }
}

/// The extension of a file name is the text after its last `.`: a name made
/// of a non-empty stem (which may hold dots of its own), a `.` and a text
/// without dots has that text as its extension; a name without any `.` has
/// none.
pub proof fn law_extension_follows_the_last_dot(stem: Seq<char>, extension: Seq<char>)
    requires
        stem.len() > 0,
        !extension.contains('.'),
    ensures
        extension_of_file_name(stem.push('.') + extension) == Some(extension),
        !stem.contains('.') ==> extension_of_file_name(stem) is None,
{
    let name = stem.push('.') + extension;
    let dot = stem.len() as int;
    assert(name[dot] == '.');
    name.index_of_last_ensures('.');
    assert(name.contains('.'));
    let last = name.index_of_last('.')->0;
    if last > dot {
        assert(name[last] == extension[last - dot - 1]);
        assert(extension.contains('.'));
    }
    assert(last == dot);
    assert(name.skip(dot + 1) =~= extension);
    stem.index_of_last_ensures('.');
}

/// A path whose file name is a non-empty stem followed by `.nfo` names an
/// NFO file, whatever dots the stem holds.
pub proof fn law_dotted_names_ending_in_nfo_are_nfo_files(path: Seq<char>, stem: Seq<char>)
    requires
        stem.len() > 0,
        spec_path_file_name(path) == Some(stem.push('.') + seq!['n', 'f', 'o']),
    ensures
        spec_path_extension(path) == Some(seq!['n', 'f', 'o']),
        spec_is_nfo_path(path),
{
    let extension = seq!['n', 'f', 'o'];
    assert(!extension.contains('.')) by {
        if extension.contains('.') {
            let k = choose|k: int| 0 <= k < extension.len() && extension[k] == '.';
        }
    }
    law_extension_follows_the_last_dot(stem, extension);
    vstd::utf8::is_ascii_chars_encode_utf8(extension);
    assert(encode_utf8(extension) =~= nfo_extension()) by {
        assert(vstd::utf8::is_ascii_chars(extension)) by {
            assert forall|i: int| 0 <= i < extension.len() implies (extension[i] as u32) < 128 by {}
        }
    }
}

} // verus!
