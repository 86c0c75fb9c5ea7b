//! Checks on incoming requests before they reach a store.
use vstd::prelude::*;

verus! {

/// The position of the first empty field among `fields`, or `None` when every
/// field is present. Identifiers and cryptographic values are required to be
/// non-empty; a request with an empty one is malformed.
pub fn first_missing_field(fields: &Vec<String>) -> (r: Option<usize>)
    ensures
        match r {
            Some(i) => i < fields.len() && fields@[i as int]@.len() == 0 && forall|j: int|
                0 <= j < i ==> (#[trigger] fields@[j])@.len() > 0,
            None => forall|j: int| 0 <= j < fields.len() ==> (#[trigger] fields@[j])@.len() > 0,
        },
{
    let mut i: usize = 0;
    while i < fields.len()
        invariant
            i <= fields.len(),
            forall|j: int| 0 <= j < i ==> (#[trigger] fields@[j])@.len() > 0,
        decreases fields.len() - i,
    {
        if fields[i].as_str().is_empty() {
            return Some(i);
        }
        i += 1;
    }
    None
}

} // verus!
