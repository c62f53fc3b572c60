//! Comparisons on strings, stated over their characters.

use vstd::prelude::*;
use vstd::string::*;
use vstd::utf8::*;

verus! {

/// The name is a stem of at least one character, a dot, and `ext`.
///
/// For an `ext` without a dot this holds exactly when `ext` is what follows the last dot
/// of the name and that dot is not the first character of the name.
pub open spec fn has_extension(name: Seq<char>, ext: Seq<char>) -> bool {
    let stem = name.len() - ext.len() - 1;
    &&& stem >= 1
    &&& name[stem] == '.'
    &&& name.subrange(stem + 1, name.len() as int) == ext
}

/// The characters of each of `strings`.
pub open spec fn strings_view(strings: Seq<String>) -> Seq<Seq<char>> {
    Seq::new(strings.len(), |i: int| strings[i]@)
}

/// Whether two strings hold the same characters.
pub fn str_eq(a: &str, b: &str) -> (same: bool)
    ensures
        same == (a@ == b@),
{
    let x = a.as_bytes();
    let y = b.as_bytes();
    proof {
        encode_utf8_decode_utf8(a@);
        encode_utf8_decode_utf8(b@);
    }
    if x.len() != y.len() {
        return false;
    }
    let mut i: usize = 0;
    while i < x.len()
        invariant
            x@ == encode_utf8(a@),
            y@ == encode_utf8(b@),
            x@.len() == y@.len(),
            i <= x@.len(),
            forall|j: int| 0 <= j < i ==> x@[j] == y@[j],
        decreases x@.len() - i,
    {
        if x[i] != y[i] {
            return false;
        }
        i += 1;
    }
    assert(x@ =~= y@);
    true
}

/// Whether `name` ends in a dot and `ext`, after a stem that is not empty.
pub fn ends_with_extension(name: &str, ext: &str) -> (found: bool)
    ensures
        found == has_extension(name@, ext@),
{
    let n: usize = name.unicode_len();
    let m: usize = ext.unicode_len();
    if n < 2 || m > n - 2 {
        return false;
    }
    let stem: usize = n - m - 1;
    if name.get_char(stem) != '.' {
        return false;
    }
    str_eq(name.substring_char(stem + 1, n), ext)
}

} // verus!
