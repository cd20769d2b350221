use vstd::prelude::*;

verus! {

/// One page of results: the transformed entries in ascending key order,
/// together with the pagination metadata.
#[derive(Clone, Debug, PartialEq)]
pub struct PaginationResponse<T> {
    pub data: Vec<T>,
    pub metadata: Metadata,
}

/// Pagination metadata: `has_more` is true iff the store holds at least one
/// further matching entry beyond the last item of `data`.
#[derive(Clone, Debug, PartialEq)]
pub struct Metadata {
    pub has_more: bool,
}

} // verus!
