//! Support for editing a value in an external editor: the temp-file name a
//! key is written under, and change detection on the bytes read back.
//! Launching the editor and the file I/O around it live outside this
//! library.

use vstd::prelude::*;

use crate::segments::char_to_string;

verus! {

/// Whether a character is Unicode-alphanumeric.
pub uninterp spec fn is_alnum(c: char) -> bool;

/// Relies on char::is_alphanumeric: the answer depends on the character
/// alone.
#[verifier::external_body]
fn char_is_alphanumeric(c: char) -> (r: bool)
    ensures
        r == is_alnum(c),
{
    c.is_alphanumeric()
}

/// A character kept in a file name: alphanumerics, dashes and underscores
/// stay, everything else becomes an underscore.
pub open spec fn sanitize_char(c: char) -> char {
    if is_alnum(c) || c == '-' || c == '_' {
        c
    } else {
        '_'
    }
}

/// The file-safe name of a key: each character sanitized, cut to the first
/// fifty.
pub open spec fn sanitize_spec(s: Seq<char>) -> Seq<char> {
    Seq::new(if s.len() < 50 {
        s.len()
    } else {
        50
    }, |i: int| sanitize_char(s[i]))
}

/// The file-safe name a key's temp file is written under.
pub fn sanitize_filename(name: &str) -> (r: String)
    ensures
        r@ == sanitize_spec(name@),
{
    let n = name.unicode_len();
    let limit = if n < 50 {
        n
    } else {
        50
    };
    let mut r = String::new();
    let mut i: usize = 0;
    while i < limit
        invariant
            i <= limit,
            n == name@.len(),
            limit == (if n < 50 {
                n
            } else {
                50
            }),
            r@.len() == i,
            forall|j: int| 0 <= j < i ==> r@[j] == sanitize_char(name@[j]),
        decreases limit - i,
    {
        let c = name.get_char(i);
        let kept = if char_is_alphanumeric(c) || c == '-' || c == '_' {
            c
        } else {
            '_'
        };
        let t = char_to_string(kept);
        r.append(t.as_str());
        i += 1;
    }
    proof {
        assert(r@ =~= sanitize_spec(name@));
    }
    r
}

/// Whether the edited bytes differ from what was written out.
pub fn bytes_equal(a: &[u8], b: &[u8]) -> (r: bool)
    ensures
        r == (a@ == b@),
{
    let an = a.len();
    let bn = b.len();
    if an != bn {
        proof {
            assert(a@.len() != b@.len());
        }
        return false;
    }
    let mut i: usize = 0;
    while i < an
        invariant
            i <= an,
            an == a@.len(),
            an == b@.len(),
            forall|j: int| 0 <= j < i ==> a@[j] == b@[j],
        decreases an - i,
    {
        if a[i] != b[i] {
            return false;
        }
        i += 1;
    }
    proof {
        assert(a@ =~= b@);
    }
    true
}

} // verus!
