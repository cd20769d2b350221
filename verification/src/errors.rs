use vstd::prelude::*;

verus! {

/// A raw entry could not be read back from the store (for example, the stored
/// bytes did not decode). Fatal to the page request: no partial page is
/// returned.
#[derive(Clone, Debug)]
pub struct StoreError {
    pub msg: String,
}

impl StoreError {
    /// The human-readable description of the failed read.
    pub fn message(&self) -> (r: &str)
        ensures
            r@ == self.msg@,
    {
        self.msg.as_str()
    }
}

/// The error of one pagination call: either the underlying range scan failed
/// to read an entry, or the caller-supplied transform rejected one. Both
/// abort the whole page; nothing partial is handed back.
#[derive(Clone, Debug)]
pub enum PaginateError<E> {
    Store(StoreError),
    Parse(E),
}

} // verus!
