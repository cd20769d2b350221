use vstd::prelude::*;

verus! {

/// A cursor position for resuming a scan: either unset (scan from the natural
/// start of the key space), or a key tagged exclusive (resume strictly after
/// it) or inclusive (resume at it or after it). Keys are compared in the
/// store's ascending order; no other meaning is assumed.
#[derive(Clone, Debug)]
pub enum Bound {
    Unbounded,
    Inclusive(String),
    Exclusive(String),
}

/// The mathematical value of a `Bound`: the same three cases over the key's
/// character sequence.
pub enum BoundView {
    Unbounded,
    Inclusive(Seq<char>),
    Exclusive(Seq<char>),
}

impl View for Bound {
    type V = BoundView;

    open spec fn view(&self) -> BoundView {
        match self {
            Bound::Unbounded => BoundView::Unbounded,
            Bound::Inclusive(k) => BoundView::Inclusive(k@),
            Bound::Exclusive(k) => BoundView::Exclusive(k@),
        }
    }
}

impl Bound {
    /// No cursor: the scan starts at the first key.
    pub fn none() -> (r: Bound)
        ensures
            r@ is Unbounded,
    {
        Bound::Unbounded
    }

    /// Resume at or after `key`.
    pub fn inclusive(key: String) -> (r: Bound)
        ensures
            r@ matches BoundView::Inclusive(k) && k == key@,
    {
        Bound::Inclusive(key)
    }

    /// Resume strictly after `key`.
    pub fn exclusive(key: String) -> (r: Bound)
        ensures
            r@ matches BoundView::Exclusive(k) && k == key@,
    {
        Bound::Exclusive(key)
    }
}

} // verus!
