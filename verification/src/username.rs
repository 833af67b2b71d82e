//! The user name kept from a file's contents: at most its first twenty characters.
use vstd::prelude::*;
use vstd::string::StrSliceExecFns;

verus! {

/// The characters of the user name taken from `contents`.
pub open spec fn username_chars(contents: Seq<char>) -> Seq<char> {
    if contents.len() > 20 {
        contents.subrange(0, 20)
    } else {
        contents
    }
}

/// Keeps the first twenty characters of longer contents, and shorter contents whole.
pub fn username_from_contents(s: &str) -> (name: String)
    ensures
        name@ == username_chars(s@),
{
    if s.unicode_len() > 20 {
        s.substring_char(0, 20).to_owned()
    } else {
        s.to_owned()
    }
}

} // verus!
