use vstd::prelude::*;

pub mod bound;
pub mod errors;
pub mod laws;
pub mod model;
pub mod paginate;
pub mod store;
pub mod types;

pub use bound::Bound;
pub use bound::BoundView;
pub use errors::PaginateError;
pub use errors::StoreError;
pub use laws::lemma_order_preserved;
pub use laws::lemma_prefix_isolation;
pub use laws::lemma_rescan_idempotent;
pub use laws::lemma_resumption;
pub use model::effective_limit;
pub use paginate::collect;
pub use paginate::paginate_map;
pub use paginate::paginate_map_prefix;
pub use paginate::paginate_map_query;
pub use paginate::paginate_prefix_query;
pub use types::Metadata;
pub use types::PaginationResponse;

verus! {

/// Page size used when the caller requests none.
pub const DEFAULT_LIMIT: u32 = 10;

/// Largest page size honoured; larger requests are clamped to it.
pub const MAX_LIMIT: u32 = 30;

} // verus!
