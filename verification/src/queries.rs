//! The one piece of the picture-query layer that carries a rule worth
//! keeping: the `order_by` identifier of the area query is matched
//! against an allow-list, never interpolated into SQL as free text.

use vstd::prelude::*;

verus! {

/// Whether a picture query may order by this identifier: exactly the
/// three sort keys the feed knows.
pub fn order_by_allowed(order_by: &str) -> (r: bool)
    ensures
        r == (order_by@ == "likes"@ || order_by@ == "rating"@ || order_by@ == "date_taken"@),
{
    let k = order_by.to_owned();
    k == "likes".to_owned() || k == "rating".to_owned() || k == "date_taken".to_owned()
}

} // verus!
