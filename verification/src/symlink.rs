//! Targets of symlinks, which are stored with `/` as separator on any platform.

use vstd::prelude::*;

use crate::platform::Platform;
use crate::text;

verus! {

/// A text with one character replaced by another.
pub open spec fn replaced(s: Seq<char>, from: char, to: char) -> Seq<char> {
    s.map_values(
        |c: char|
            if c == from {
                to
            } else {
                c
            },
    )
}

/// A target as it is stored.
pub open spec fn target_in_store(platform: Platform, target: Seq<char>) -> Seq<char> {
    match platform {
        Platform::Unix => target,
        Platform::Windows => replaced(target, '\\', '/'),
    }
}

/// A stored target as it is written to disk.
pub open spec fn target_on_disk(platform: Platform, target: Seq<char>) -> Seq<char> {
    match platform {
        Platform::Unix => target,
        Platform::Windows => replaced(target, '/', '\\'),
    }
}

/// `String::from_utf8`: the text that is encoded by the bytes, if they are valid
/// UTF-8.
#[verifier::external_body]
fn text_from_utf8(bytes: Vec<u8>) -> (r: Option<String>)
    ensures
        r is Some == vstd::utf8::valid_utf8(bytes@),
        r matches Some(text) ==> text@ == vstd::utf8::decode_utf8(bytes@),
{
    String::from_utf8(bytes).ok()
}

fn replace_char(target: &str, from: char, to: char) -> (r: String)
    ensures
        r@ == replaced(target@, from, to),
{
    let chars = text::chars_of(target);
    let mut out: Vec<char> = Vec::new();
    let mut i: usize = 0;
    while i < chars.len()
        invariant
            i <= chars@.len(),
            chars@ == target@,
            out@ == replaced(target@, from, to).take(i as int),
        decreases chars@.len() - i,
    {
        let c = chars[i];
        let ghost before = out@;
        out.push(
            if c == from {
                to
            } else {
                c
            },
        );
        assert(replaced(target@, from, to).take(i + 1) =~= before.push(
            replaced(target@, from, to)[i as int],
        ));
        i += 1;
    }
    assert(out@ =~= replaced(target@, from, to));
    text::string_of(&out, 0, out.len())
}

/// The text of a symlink's target as it is stored. There is none if the target is
/// not valid UTF-8.
///
/// When storing the symlink target on Windows, convert "\" to "/", so that the
/// symlink remains valid on Unix.
pub fn symlink_target_convert_to_store(platform: Platform, target: Vec<u8>) -> (r: Option<String>)
    ensures
        r is Some == vstd::utf8::valid_utf8(target@),
        r matches Some(text) ==> text@ == target_in_store(
            platform,
            vstd::utf8::decode_utf8(target@),
        ),
{
    match text_from_utf8(target) {
        Some(text) => match platform {
            Platform::Unix => Some(text),
            Platform::Windows => Some(replace_char(text.as_str(), '\\', '/')),
        },
        None => None,
    }
}

/// The text of the file that stands for a symlink, taken literally. There is none
/// if the contents are not valid UTF-8.
pub fn symlink_target_of_file(contents: Vec<u8>) -> (r: Option<String>)
    ensures
        r is Some == vstd::utf8::valid_utf8(contents@),
        r matches Some(text) ==> text@ == vstd::utf8::decode_utf8(contents@),
{
    text_from_utf8(contents)
}

/// The target to write to disk.
///
/// Use the main separator to reformat the input path to avoid creating a broken
/// symlink with the incorrect separator "/".
pub fn symlink_target_convert_to_disk(platform: Platform, target: &str) -> (r: String)
    ensures
        r@ == target_on_disk(platform, target@),
{
    match platform {
        Platform::Unix => target.to_string(),
        Platform::Windows => replace_char(target, '/', '\\'),
    }
}

/// A target that was written to disk is stored as it was, unless it holds a `\`
/// that Windows reads as separator.
pub proof fn lemma_target_round_trip(platform: Platform, target: Seq<char>)
    requires
        platform == Platform::Windows ==> !target.contains('\\'),
    ensures
        target_in_store(platform, target_on_disk(platform, target)) == target,
{
    if platform == Platform::Windows {
        assert forall|i: int| 0 <= i < target.len() implies target[i] != '\\' by {
            assert(target.contains(target[i]));
        }
        assert(target_in_store(platform, target_on_disk(platform, target)) =~= target);
    }
}

/// On Windows, a target that is written to disk holds no `/`, which is neither
/// part of a valid file name there nor a valid separator.
pub proof fn lemma_target_without_slash(target: Seq<char>)
    ensures
        !target_on_disk(Platform::Windows, target).contains('/'),
{
    let s = target_on_disk(Platform::Windows, target);
    assert forall|i: int| 0 <= i < s.len() implies s[i] != '/' by {}
}

/// On Unix, targets are stored and written as they are. On Windows, each separator is turned
/// into that of the other side, and all other characters stay.
pub proof fn lemma_targets_converted(
    platform: Platform,
    bytes: Vec<u8>,
    stored: Option<String>,
    target: &str,
    written: String,
    i: int,
)
    requires
        call_ensures(symlink_target_convert_to_store, (platform, bytes), stored),
        call_ensures(symlink_target_convert_to_disk, (platform, target), written),
    ensures
        stored is Some <==> vstd::utf8::valid_utf8(bytes@),
        written@.len() == target@.len(),
        0 <= i < target@.len() ==> written@[i] == if platform == Platform::Windows && target@[i]
            == '/' {
            '\\'
        } else {
            target@[i]
        },
        stored is Some ==> {
            let read = vstd::utf8::decode_utf8(bytes@);
            &&& stored->0@.len() == read.len()
            &&& 0 <= i < read.len() ==> stored->0@[i] == if platform == Platform::Windows && read[i]
                == '\\' {
                '/'
            } else {
                read[i]
            }
        },
{
}

/// A target that is written to disk and read from there is stored as it was, unless it holds
/// a `\` that Windows reads as separator.
pub proof fn lemma_written_target_stored(
    platform: Platform,
    target: &str,
    written: String,
    bytes: Vec<u8>,
    stored: Option<String>,
)
    requires
        platform == Platform::Windows ==> !target@.contains('\\'),
        call_ensures(symlink_target_convert_to_disk, (platform, target), written),
        vstd::utf8::valid_utf8(bytes@),
        vstd::utf8::decode_utf8(bytes@) == written@,
        call_ensures(symlink_target_convert_to_store, (platform, bytes), stored),
    ensures
        stored is Some && stored->0@ == target@,
{
    lemma_target_round_trip(platform, target@);
}

/// The text of a file that stands for a symlink is its target, on any platform.
pub proof fn lemma_target_in_file(contents: Vec<u8>, r: Option<String>)
    requires
        call_ensures(symlink_target_of_file, (contents,), r),
    ensures
        r is Some <==> vstd::utf8::valid_utf8(contents@),
        r is Some ==> r->0@ == vstd::utf8::decode_utf8(contents@),
{
}

} // verus!
