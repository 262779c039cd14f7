use vstd::prelude::*;

verus! {

/// The pending-group buffer: an ordered sequence of at most four
/// not-yet-emitted 6-bit values, kept in a stack-allocated vector so the
/// hot path stays allocation-free.
#[verifier::external_body]
pub struct PendingBuf {
    inner: arrayvec::ArrayVec<[u8; 4]>,
}

/// The ordered contents of a pending-group buffer.
pub uninterp spec fn buf_view(v: PendingBuf) -> Seq<u8>;

/// Relies on arrayvec::ArrayVec::new: a freshly created vector is empty.
#[verifier::external_body]
pub fn buf_new() -> (r: PendingBuf)
    ensures
        buf_view(r) == Seq::<u8>::empty(),
{
    PendingBuf { inner: arrayvec::ArrayVec::new() }
}

/// Relies on arrayvec::ArrayVec::len: the number of elements held.
#[verifier::external_body]
pub fn buf_len(v: &PendingBuf) -> (r: usize)
    ensures
        r == buf_view(*v).len(),
{
    v.inner.len()
}

/// Relies on arrayvec::ArrayVec::is_empty: true iff no element is held.
#[verifier::external_body]
pub fn buf_is_empty(v: &PendingBuf) -> (r: bool)
    ensures
        r == (buf_view(*v).len() == 0),
{
    v.inner.is_empty()
}

/// Relies on arrayvec::ArrayVec::push: appends one element at the end.
/// The length is kept below the capacity of four, so the call cannot
/// panic.
#[verifier::external_body]
pub fn buf_push(v: &mut PendingBuf, x: u8)
    requires
        buf_view(*old(v)).len() < 4,
    ensures
        buf_view(*final(v)) == buf_view(*old(v)).push(x),
{
    v.inner.push(x)
}

/// Relies on the slice indexing that arrayvec::ArrayVec's Deref impl
/// exposes: the element at position `i`.
#[verifier::external_body]
pub fn buf_get(v: &PendingBuf, i: usize) -> (r: u8)
    requires
        i < buf_view(*v).len(),
    ensures
        r == buf_view(*v)[i as int],
{
    v.inner[i]
}

/// Relies on arrayvec::ArrayVec::clear: removes every element.
#[verifier::external_body]
pub fn buf_clear(v: &mut PendingBuf)
    ensures
        buf_view(*final(v)) == Seq::<u8>::empty(),
{
    v.inner.clear()
}

} // verus!
