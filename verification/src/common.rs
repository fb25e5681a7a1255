//! Naming of the places where one chunk refers to another.

use vstd::prelude::*;

verus! {

/// The token that stands for the chunk `reference_id` where a statement imports from it.
pub open spec fn spec_bundle_reference_slot_name(reference_id: Seq<char>) -> Seq<char> {
    "__FARM_BUNDLE_REFERENCE_SLOT__("@ + reference_id + ")"@
}

/// The token that stands for the chunk `reference_id` where a statement imports from it: the
/// identifier between a fixed opening and a closing bracket.
pub fn with_bundle_reference_slot_name(reference_id: &String) -> (r: String)
    ensures
        r@ == spec_bundle_reference_slot_name(reference_id@),
{
    let mut name = String::from_str("__FARM_BUNDLE_REFERENCE_SLOT__(");
    name.append(reference_id.as_str());
    name.append(")");
    name
}

} // verus!
