//! Validation of chat messages and usernames.

use vstd::prelude::*;
use vstd::string::StrSliceExecFns;

verus! {

/// Whether a character has the Unicode "control" general category: the
/// documentation of char::is_control gives it as exactly U+0000 to U+001F
/// and U+007F to U+009F.
pub open spec fn is_control_char(c: char) -> bool {
    (c as u32) < 0x20 || (0x7f <= (c as u32) && (c as u32) <= 0x9f)
}

/// Whether a character is alphanumeric in the Unicode sense.
pub uninterp spec fn is_alphanumeric_char(c: char) -> bool;

/// Relies on char::is_control: the control characters are exactly
/// U+0000 to U+001F and U+007F to U+009F.
#[verifier::external_body]
fn char_is_control(c: char) -> (r: bool)
    ensures
        r == is_control_char(c),
{
    c.is_control()
}

/// Relies on char::is_alphanumeric: a fixed predicate of the character
/// alone. Its documentation gives the ASCII letters and digits as
/// alphanumeric, and none of the punctuation, separator or control
/// categories is alphabetic or numeric.
#[verifier::external_body]
fn char_is_alphanumeric(c: char) -> (r: bool)
    ensures
        r == is_alphanumeric_char(c),
        ('a' <= c && c <= 'z') || ('A' <= c && c <= 'Z') || ('0' <= c && c <= '9') ==> r,
        c == ' ' || c == '-' || c == '.' ==> !r,
        is_control_char(c) ==> !r,
{
    c.is_alphanumeric()
}

/// A sendable chat message: nonempty, and free of control characters.
pub open spec fn valid_message(m: Seq<char>) -> bool {
    &&& m.len() > 0
    &&& forall|i: int| 0 <= i < m.len() ==> !is_control_char(m[i])
}

/// A valid account name: nonempty, at most 18 characters, all alphanumeric.
pub open spec fn valid_username(u: Seq<char>) -> bool {
    &&& 1 <= u.len() <= 18
    &&& forall|i: int| 0 <= i < u.len() ==> is_alphanumeric_char(u[i])
}

/// Checks for incorrect characters (i.e. control characters).
pub fn verify_message(m: &str) -> (r: bool)
    ensures
        r == valid_message(m@),
{
    let len = m.unicode_len();
    if len == 0 {
        return false;
    }
    let mut i: usize = 0;
    while i < len
        invariant
            0 < len == m@.len(),
            0 <= i <= len,
            forall|j: int| 0 <= j < i ==> !is_control_char(m@[j]),
        decreases len - i,
    {
        let c = m.get_char(i);
        if char_is_control(c) {
            return false;
        }
        i += 1;
    }
    true
}

/// Checks length and characters.
pub fn verify_username(u: &str) -> (r: bool)
    ensures
        r == valid_username(u@),
{
    let len = u.unicode_len();
    if len == 0 || len > 18 {
        return false;
    }
    let mut i: usize = 0;
    while i < len
        invariant
            0 < len == u@.len() <= 18,
            0 <= i <= len,
            forall|j: int| 0 <= j < i ==> is_alphanumeric_char(u@[j]),
        decreases len - i,
    {
        let c = u.get_char(i);
        if !char_is_alphanumeric(c) {
            return false;
        }
        i += 1;
    }
    true
}

/// Compares two strings by value.
pub fn str_eq(a: &str, b: &str) -> (r: bool)
    ensures
        r == (a@ == b@),
{
    let s1: String = a.to_owned();
    let s2: String = b.to_owned();
    s1 == s2
}

/// Compares two byte vectors by value.
pub fn bytes_eq(a: &Vec<u8>, b: &Vec<u8>) -> (r: bool)
    ensures
        r == (a@ == b@),
{
    if a.len() != b.len() {
        return false;
    }
    let n = a.len();
    let mut i: usize = 0;
    while i < n
        invariant
            0 <= i <= n == a@.len() == b@.len(),
            forall|k: int| 0 <= k < i ==> a@[k] == b@[k],
        decreases n - i,
    {
        if a[i] != b[i] {
            return false;
        }
        i += 1;
    }
    assert(a@ =~= b@);
    true
}

} // verus!
