//! What a front end checks of the file names it is given.

use vstd::prelude::*;
use vstd::string::*;

verus! {

/// Where the part after the last `mark` starts: behind the last `mark`, or
/// at 0 where the text has none.
pub open spec fn tail_start(text: Seq<char>, mark: char) -> int
    decreases text.len(),
{
    if text.len() == 0 {
        0
    } else if text.last() == mark {
        text.len() as int
    } else {
        tail_start(text.drop_last(), mark)
    }
}

/// The part of the text after its last `mark`; the whole text where it has
/// none.
pub open spec fn tail_after(text: Seq<char>, mark: char) -> Seq<char> {
    text.skip(tail_start(text, mark))
}

/// The tail starts inside the text, right behind a `mark` unless it starts
/// at 0, and holds no `mark`.
pub proof fn lemma_tail_start(text: Seq<char>, mark: char)
    ensures
        0 <= tail_start(text, mark) <= text.len(),
        tail_start(text, mark) > 0 ==> text[tail_start(text, mark) - 1] == mark,
        forall|i: int| tail_start(text, mark) <= i < text.len() ==> text[i] != mark,
    decreases text.len(),
{
    if text.len() > 0 && text.last() != mark {
        let front = text.drop_last();
        lemma_tail_start(front, mark);
        assert forall|i: int| tail_start(text, mark) <= i < text.len() implies text[i] != mark by {
            if i < front.len() {
                assert(text[i] == front[i]);
            }
        }
    }
}

/// What `str::to_lowercase` makes of a text.
pub uninterp spec fn lowercased(text: Seq<char>) -> Seq<char>;

/// `str::to_lowercase`: the text with each character replaced by its
/// lowercase form, as Unicode defines it. The contract gives the result its
/// name.
#[verifier::external_body]
fn lowercase(text: &str) -> (lower: String)
    ensures
        lower@ == lowercased(text@),
{
    text.to_lowercase()
}

/// Whether the text is one of the four extensions that can be converted.
pub open spec fn is_supported(extension: Seq<char>) -> bool {
    extension == "ply"@ || extension == "spz"@ || extension == "splat"@ || extension == "csv"@
}

/// What is said of a file name with another extension.
pub open spec fn extension_message() -> Seq<char> {
    "File must have one of the following extensions: .ply, .spz, .splat, .csv"@
}

/// Whether two texts are the same.
pub fn same_text(a: &str, b: &str) -> (same: bool)
    ensures
        same == (a@ == b@),
{
    String::from_str(a) == String::from_str(b)
}

/// Whether the text is one of the four extensions that can be converted.
pub fn is_supported_format(extension: &str) -> (supported: bool)
    ensures
        supported == is_supported(extension@),
{
    same_text(extension, "ply") || same_text(extension, "spz") || same_text(extension, "splat")
        || same_text(extension, "csv")
}

/// The part of the text after its last `mark`.
pub fn tail(text: &str, mark: char) -> (part: &str)
    ensures
        part@ == tail_after(text@, mark),
{
    let n = text.unicode_len();
    let mut start: usize = n;
    assert(text@.take(n as int) =~= text@);
    while start > 0 && text.get_char(start - 1) != mark
        invariant
            start <= n,
            n == text@.len(),
            tail_start(text@, mark) == tail_start(text@.take(start as int), mark),
        decreases start,
    {
        assert(text@.take(start as int).drop_last() =~= text@.take(start - 1));
        start -= 1;
    }
    proof {
        if start == 0 {
            assert(text@.take(0).len() == 0);
        } else {
            assert(text@.take(start as int).last() == mark);
        }
    }
    text.substring_char(start, n)
}

/// Checks that the name of a file ends in one of the four extensions,
/// whatever the case of its letters.
pub fn validate_extension(s: &str) -> (r: Result<(), String>)
    ensures
        r is Ok <==> is_supported(lowercased(tail_after(s@, '.'))),
        r is Err ==> r->Err_0@ == extension_message(),
{
    let extension = lowercase(tail(s, '.'));
    if is_supported_format(extension.as_str()) {
        Ok(())
    } else {
        Err(
            String::from_str(
                "File must have one of the following extensions: .ply, .spz, .splat, .csv",
            ),
        )
    }
}

/// Checks the name of the file to read: its extension, and then that the
/// file is there, which the caller has found out.
pub fn validate_input_path(s: &str, is_file: bool) -> (r: Result<String, String>)
    ensures
        r is Ok <==> is_supported(lowercased(tail_after(s@, '.'))) && is_file,
        r is Ok ==> r->Ok_0@ == s@,
        !is_supported(lowercased(tail_after(s@, '.'))) ==> r is Err && r->Err_0@
            == extension_message(),
        is_supported(lowercased(tail_after(s@, '.'))) && !is_file ==> r is Err && r->Err_0@
            == "Invalid input: file does not exist"@,
{
    match validate_extension(s) {
        Err(message) => {
            return Err(message);
        },
        Ok(_) => {},
    }
    if !is_file {
        return Err(String::from_str("Invalid input: file does not exist"));
    }
    Ok(String::from_str(s))
}

/// What is said of a file to write whose folder is missing.
pub open spec fn missing_parent_message(parent: Seq<char>) -> Seq<char> {
    "Invalid output: parent folder '"@ + parent + "' does not exist"@
}

/// Checks the name of the file to write: its extension, and then that its
/// folder is there. The caller gives the folder's name, empty where the
/// file name has none, and has found out whether it exists.
pub fn validate_output_path(s: &str, parent: &str, parent_exists: bool) -> (r: Result<
    String,
    String,
>)
    ensures
        r is Ok <==> is_supported(lowercased(tail_after(s@, '.'))) && (parent@.len() == 0
            || parent_exists),
        r is Ok ==> r->Ok_0@ == s@,
        !is_supported(lowercased(tail_after(s@, '.'))) ==> r is Err && r->Err_0@
            == extension_message(),
        is_supported(lowercased(tail_after(s@, '.'))) && parent@.len() != 0 && !parent_exists
            ==> r is Err && r->Err_0@ == missing_parent_message(parent@),
{
    match validate_extension(s) {
        Err(message) => {
            return Err(message);
        },
        Ok(_) => {},
    }
    if parent.unicode_len() != 0 && !parent_exists {
        let mut message = String::from_str("Invalid output: parent folder '");
        message.append(parent);
        message.append("' does not exist");
        return Err(message);
    }
    Ok(String::from_str(s))
}

} // verus!
