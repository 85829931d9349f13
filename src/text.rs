//! Reading bytes as text, and the small text measures that highlighting and
//! metadata need.

use vstd::prelude::*;
use vstd::utf8::{decode_utf8, valid_utf8};
use crate::error::InvalidUtf;

verus! {

/// Relies on `std::str::from_utf8`: it accepts exactly the well-formed UTF-8 byte
/// sequences and reads the characters they encode.
#[verifier::external_body]
fn utf8_text(bytes: &[u8]) -> (r: Option<String>)
    ensures
        r is Some <==> valid_utf8(bytes@),
        r matches Some(s) ==> s@ == decode_utf8(bytes@),
{
    std::str::from_utf8(bytes).ok().map(|s| s.to_owned())
}

/// The text that `bytes` encode, if they are well-formed UTF-8. This is a heuristic
/// for telling text from binary content, not a statement about the content's type.
pub fn decode_text(bytes: &Vec<u8>) -> (r: Result<String, InvalidUtf>)
    ensures
        r is Ok <==> valid_utf8(bytes@),
        r matches Ok(s) ==> s@ == decode_utf8(bytes@),
{
    match utf8_text(bytes.as_slice()) {
        Some(s) => Ok(s),
        None => Err(InvalidUtf),
    }
}

/// Whether `c` has Unicode's White_Space property.
pub open spec fn white_space(c: char) -> bool {
    let v = c as u32;
    ||| 0x9 <= v <= 0xd
    ||| v == 0x20
    ||| v == 0x85
    ||| v == 0xa0
    ||| v == 0x1680
    ||| 0x2000 <= v <= 0x200a
    ||| v == 0x2028
    ||| v == 0x2029
    ||| v == 0x202f
    ||| v == 0x205f
    ||| v == 0x3000
}

/// `s` without its leading white space.
pub open spec fn trim_start(s: Seq<char>) -> Seq<char>
    decreases s.len(),
{
    if s.len() > 0 && white_space(s[0]) {
        trim_start(s.drop_first())
    } else {
        s
    }
}

/// `s` without its trailing white space.
pub open spec fn trim_end(s: Seq<char>) -> Seq<char>
    decreases s.len(),
{
    if s.len() > 0 && white_space(s.last()) {
        trim_end(s.drop_last())
    } else {
        s
    }
}

/// `s` without its leading and trailing white space.
pub open spec fn trimmed(s: Seq<char>) -> Seq<char> {
    trim_end(trim_start(s))
}

/// Relies on `str::trim`: `s` without its leading and trailing characters of Unicode's
/// White_Space property.
#[verifier::external_body]
pub(crate) fn trim_text(s: &str) -> (r: String)
    ensures
        r@ == trimmed(s@),
{
    s.trim().to_owned()
}

/// The first line of `s` with its line ending, or all of `s` when it has no line feed.
pub open spec fn first_line(s: Seq<char>) -> Seq<char> {
    if exists|i: int| 0 <= i < s.len() && s[i] == '\n' {
        let k = choose|i: int|
            0 <= i < s.len() && s[i] == '\n' && forall|j: int| 0 <= j < i ==> s[j] != '\n';
        s.subrange(0, k + 1)
    } else {
        s
    }
}

/// Relies on syntect's `LinesWithEndings`, which cuts its input after each line feed;
/// an empty input has no line, and then the empty text stands for it.
#[verifier::external_body]
pub(crate) fn first_line_text(s: &str) -> (r: String)
    ensures
        r@ == first_line(s@),
{
    syntect::util::LinesWithEndings::from(s).next().unwrap_or_default().to_owned()
}

/// The extension of a file name: what follows its last dot, where that dot is not
/// the name's first character; empty when there is no such dot.
pub open spec fn extension(name: Seq<char>) -> Seq<char> {
    if exists|i: int| 0 < i < name.len() && name[i] == '.' {
        let k = choose|i: int|
            0 < i < name.len() && name[i] == '.' && forall|j: int| i < j < name.len() ==> name[j] != '.';
        name.subrange(k + 1, name.len() as int)
    } else {
        Seq::empty()
    }
}

/// The extension of the file name `name`.
pub fn extension_text(name: &str) -> (r: String)
    ensures
        r@ == extension(name@),
{
    let n = name.unicode_len();
    let mut i: usize = n;
    while i > 1
        invariant
            i <= n,
            n == name@.len(),
            forall|j: int| i <= j < n ==> name@[j] != '.',
        decreases i,
    {
        if name.get_char(i - 1) == '.' {
            let k = i - 1;
            assert(0 < k < name@.len() && name@[k as int] == '.');
            let ghost c = choose|c: int|
                0 < c < name@.len() && name@[c] == '.' && forall|j: int| c < j < name@.len() ==> name@[j] != '.';
            assert(c == k) by {
                if c < k {
                } else if c > k {
                }
            }
            return name.substring_char(i, n).to_owned();
        }
        i = i - 1;
    }
    assert(!exists|j: int| 0 < j < name@.len() && name@[j] == '.');
    String::new()
}

} // verus!
