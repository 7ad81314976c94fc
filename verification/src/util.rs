//! Append helpers for the log types Writer works with, in the shape that
//! `censor` takes: they yield the appended value, leaving the first operand
//! consumed.

use vstd::prelude::*;
use vstd::string::StringExecFns;

verus! {

/// Append the items of `v2` after those of `v1`.
pub fn concat_vec_array<T: Copy>(v1: Vec<T>, v2: &[T]) -> (r: Vec<T>)
    ensures
        r@ == v1@ + v2@,
{
    let mut r = v1;
    let mut tail = vstd::slice::slice_to_vec(v2);
    r.append(&mut tail);
    r
}

/// Append the characters of `s2` after those of `s1`.
pub fn concat_string_str(s1: String, s2: &str) -> (r: String)
    ensures
        r@ == s1@ + s2@,
{
    let mut r = s1;
    r.append(s2);
    r
}

} // verus!
