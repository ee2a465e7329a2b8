//! Decisions taken on incoming requests.
use vstd::prelude::*;
use crate::structures::ascan_struct::DataFilter;
use crate::utils::text::{trim_text, trimmed};

verus! {

/// A filter value that holds something besides white space.
pub open spec fn filled(value: Option<String>) -> bool {
    value matches Some(v) && trimmed(v@).len() > 0
}

/// What a wheel request searches by: `Some((true, heat))` when a heat
/// number is given, otherwise `Some((false, batch))` when a batch number is
/// given, the number without surrounding white space; `None` when neither
/// is given (the request is refused).
pub fn select_filter(filter: &DataFilter) -> (r: Option<(bool, String)>)
    ensures
        filled(filter.malting) ==> (r matches Some((by_malting, v)) && by_malting && v@ == trimmed(
            filter.malting->0@,
        )),
        !filled(filter.malting) && filled(filter.batch_number) ==> (r matches Some((by_malting, v))
            && !by_malting && v@ == trimmed(filter.batch_number->0@)),
        !filled(filter.malting) && !filled(filter.batch_number) ==> r is None,
{
    if let Some(m) = &filter.malting {
        let t = trim_text(m.as_str());
        if !t.as_str().is_empty() {
            return Some((true, t));
        }
    }
    if let Some(b) = &filter.batch_number {
        let t = trim_text(b.as_str());
        if !t.as_str().is_empty() {
            return Some((false, t));
        }
    }
    None
}

/// The answer to a wheel request that names neither a batch nor a heat.
pub fn missing_filter_message() -> (r: &'static str)
    ensures
        r@ == "Нужно указать batch_number или malting"@,
{
    "Нужно указать batch_number или malting"
}

} // verus!
