//! The frames that a packet carries.
use smallvec::SmallVec;
use vstd::prelude::*;

verus! {

/// A frame, named by the handle under which the connection keeps its payload.
#[derive(Clone, Copy, Debug, PartialEq, Eq, Structural)]
pub struct Frame {
    pub handle: u64,
}

/// The frames of one packet. Most packets carry a single frame, which is then
/// stored inline.
#[verifier::external_body]
pub struct Frames {
    inner: SmallVec<[Frame; 1]>,
}

/// The frames that a `smallvec::SmallVec` holds, in order.
pub uninterp spec fn frames_of(frames: Frames) -> Seq<Frame>;

/// `SmallVec::from_vec`: the new vector holds the given items, in order.
#[verifier::external_body]
fn small_from_vec(items: Vec<Frame>) -> (frames: Frames)
    ensures
        frames_of(frames) == items@,
{
    Frames { inner: SmallVec::from_vec(items) }
}

/// `SmallVec::drain` over the full range: it yields every item, in order, and
/// leaves the vector empty.
#[verifier::external_body]
fn small_drain(frames: &mut Frames) -> (items: Vec<Frame>)
    ensures
        items@ == frames_of(*old(frames)),
        frames_of(*final(frames)) == Seq::<Frame>::empty(),
{
    frames.inner.drain(..).collect()
}

/// `SmallVec::as_slice`: every item, in order, here copied into a `Vec`.
#[verifier::external_body]
fn small_as_slice(frames: &Frames) -> (items: Vec<Frame>)
    ensures
        items@ == frames_of(*frames),
{
    frames.inner.as_slice().to_vec()
}

impl View for Frames {
    type V = Seq<Frame>;

    open spec fn view(&self) -> Seq<Frame> {
        frames_of(*self)
    }
}

impl Frames {
    pub fn new() -> (frames: Frames)
        ensures
            frames@ == Seq::<Frame>::empty(),
    {
        small_from_vec(Vec::new())
    }

    pub fn from_vec(items: Vec<Frame>) -> (frames: Frames)
        ensures
            frames@ == items@,
    {
        small_from_vec(items)
    }

    /// Removes all the frames and hands them out.
    pub fn take(&mut self) -> (items: Vec<Frame>)
        ensures
            items@ == old(self)@,
            final(self)@ == Seq::<Frame>::empty(),
    {
        small_drain(self)
    }

    /// A copy of the frames.
    pub fn to_vec(&self) -> (items: Vec<Frame>)
        ensures
            items@ == self@,
    {
        small_as_slice(self)
    }
}

} // verus!
