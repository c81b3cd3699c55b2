//! Which files of a directory are loaded as images: those whose extension,
//! in lower case, is one of the image extensions.
use vstd::prelude::*;
use crate::dir::str_eq;
use crate::idx_name::chars_to_string;
use vstd::string::StrSliceExecFns;

verus! {

/// `c` in ASCII lower case.
pub open spec fn lower_char(c: char) -> char {
    if 'A' <= c && c <= 'Z' {
        ((c as u32) + 32) as char
    } else {
        c
    }
}

/// A text with its ASCII letters in lower case.
pub open spec fn ascii_lower(s: Seq<char>) -> Seq<char> {
    s.map_values(|c: char| lower_char(c))
}

/// Whether `s` is one of the texts of `list`.
pub open spec fn listed(list: Seq<&str>, s: Seq<char>) -> bool {
    exists|i: int| 0 <= i < list.len() && list[i]@ == s
}

fn to_lower_char(c: char) -> (r: char)
    ensures
        r == lower_char(c),
{
    if 'A' <= c && c <= 'Z' {
        let u = (c as u8) + 32;
        u as char
    } else {
        c
    }
}

/// The extension of a file in lower case, when it is one of `ext_list`.
pub fn image_extension(ext: &str, ext_list: &[&str]) -> (r: Option<String>)
    ensures
        r is Some <==> listed(ext_list@, ascii_lower(ext@)),
        r matches Some(s) ==> s@ == ascii_lower(ext@),
{
    let n = ext.unicode_len();
    let mut chars: Vec<char> = Vec::new();
    for i in 0..n
        invariant
            n == ext@.len(),
            chars@ == ascii_lower(ext@.take(i as int)),
    {
        let c = to_lower_char(ext.get_char(i));
        chars.push(c);
        assert(chars@ =~= ascii_lower(ext@.take(i + 1)));
    }
    assert(ext@.take(n as int) =~= ext@);
    let lower = chars_to_string(&chars);
    let m = ext_list.len();
    for j in 0..m
        invariant
            m == ext_list@.len(),
            lower@ == ascii_lower(ext@),
            forall|k: int| 0 <= k < j ==> ext_list@[k]@ != lower@,
    {
        if str_eq(ext_list[j], lower.as_str()) {
            return Some(lower);
        }
    }
    None
}

} // verus!
