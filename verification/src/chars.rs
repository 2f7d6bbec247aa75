//! Conversions between strings and character vectors.
//!
//! The substitution and parsing logic works on `Vec<char>`, whose view is the
//! same `Seq<char>` as the view of the string it came from.

use vstd::prelude::*;
use vstd::std_specs::iter::IteratorSpec;

verus! {

/// The characters of `s`, in order, as a vector.
pub fn chars_of(s: &str) -> (v: Vec<char>)
    ensures
        v@ == s@,
{
    broadcast use vstd::string::axiom_spec_iter, vstd::string::next_postcondition;

    let mut it = s.chars();
    let mut v: Vec<char> = Vec::new();
    loop
        invariant
            it.obeys_prophetic_iter_laws(),
            it.decrease() is Some,
            v@ + it.remaining() == s@,
        ensures
            v@ == s@,
        decreases it.decrease().unwrap(),
    {
        match it.next() {
            Some(c) => {
                v.push(c);
                proof {
                    assert(v@ + it.remaining() =~= s@);
                }
            },
            None => {
                proof {
                    assert(v@ + it.remaining() =~= v@);
                }
                break ;
            },
        }
    }
    v
}

/// Relies on `String`'s `FromIterator<char>`: collecting characters yields
/// the string holding exactly those characters in order.
#[verifier::external_body]
pub fn string_from_chars(v: &Vec<char>) -> (r: String)
    ensures
        r@ == v@,
{
    v.iter().collect()
}

} // verus!
