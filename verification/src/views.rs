//! Views of options and lists of things that have a view.
use vstd::prelude::*;

verus! {

/// The view of what is there, if anything is.
pub open spec fn of_option<T: View>(value: Option<T>) -> Option<T::V> {
    match value {
        Some(x) => Some(x@),
        None => None,
    }
}

/// The view of what came out, be it a value or an error.
pub open spec fn of_result<T: View, E: View>(value: Result<T, E>) -> Result<T::V, E::V> {
    match value {
        Ok(x) => Ok(x@),
        Err(e) => Err(e@),
    }
}

/// The views of a list.
pub open spec fn of_list<T: View>(items: Seq<T>) -> Seq<T::V> {
    items.map_values(|x: T| x@)
}

} // verus!
