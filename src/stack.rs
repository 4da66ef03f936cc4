use smallvec::SmallVec;
use vstd::prelude::*;

verus! {

/// Timestamps kept in a `smallvec::SmallVec` with one inline slot, so that
/// the common case of a span entered once allocates nothing.
#[verifier::external_body]
pub struct Frames {
    inner: SmallVec<[u64; 1]>,
}

/// What a `Frames` holds, first pushed first.
pub uninterp spec fn frames_of(v: Frames) -> Seq<u64>;

/// Relies on `SmallVec::new`: a new vector holds nothing.
#[verifier::external_body]
fn small_vec_new() -> (r: Frames)
    ensures
        frames_of(r) == Seq::<u64>::empty(),
{
    Frames { inner: SmallVec::new() }
}

/// The most frames a stack holds. Below it, growing a full `SmallVec` of
/// `u64` (to the next power of two of the length plus one, in bytes) stays
/// within the allocation size limit on 32-bit and 64-bit targets alike.
pub const MAX_OPEN_FRAMES: usize = 0x800_0000;

/// Relies on `SmallVec::push`: the value is appended at the end. It panics
/// ("capacity overflow") only when the grown capacity or its size in bytes
/// overflows, which `MAX_OPEN_FRAMES` rules out.
#[verifier::external_body]
fn small_vec_push(v: &mut Frames, x: u64)
    requires
        frames_of(*old(v)).len() < MAX_OPEN_FRAMES,
    ensures
        frames_of(*final(v)) == frames_of(*old(v)).push(x),
{
    v.inner.push(x)
}

/// Relies on `SmallVec::pop`: removes and returns the last value, or returns
/// `None` and leaves an empty vector as it is.
#[verifier::external_body]
fn small_vec_pop(v: &mut Frames) -> (r: Option<u64>)
    ensures
        frames_of(*old(v)).len() == 0 ==> r.is_none() && frames_of(*final(v)) == frames_of(*old(v)),
        frames_of(*old(v)).len() > 0 ==> r == Some(frames_of(*old(v)).last())
            && frames_of(*final(v)) == frames_of(*old(v)).drop_last(),
{
    v.inner.pop()
}

/// Relies on `SmallVec::len`: the number of values held.
#[verifier::external_body]
fn small_vec_len(v: &Frames) -> (r: usize)
    ensures
        r == frames_of(*v).len(),
{
    v.inner.len()
}

/// The open timing frames of one span identity: the start timestamp of each
/// enter that has not been matched by an exit yet, the most recent last.
pub struct TimingStack {
    frames: Frames,
}

impl View for TimingStack {
    type V = Seq<u64>;

    closed spec fn view(&self) -> Seq<u64> {
        frames_of(self.frames)
    }
}

impl TimingStack {
    /// A stack with no open frame.
    pub fn new() -> (r: TimingStack)
        ensures
            r@ == Seq::<u64>::empty(),
    {
        TimingStack { frames: small_vec_new() }
    }

    /// A stack holding the single frame opened at `start`.
    pub fn with_frame(start: u64) -> (r: TimingStack)
        ensures
            r@ == seq![start],
    {
        let mut s = TimingStack::new();
        s.push(start);
        proof {
            assert(s@ =~= seq![start]);
        }
        s
    }

    /// The number of open frames.
    pub fn len(&self) -> (r: usize)
        ensures
            r == self@.len(),
    {
        small_vec_len(&self.frames)
    }

    /// Opens a frame that started at `start`.
    pub fn push(&mut self, start: u64)
        requires
            old(self)@.len() < MAX_OPEN_FRAMES,
        ensures
            final(self)@ == old(self)@.push(start),
    {
        small_vec_push(&mut self.frames, start);
    }

    /// Closes the most recently opened frame and returns its start, or
    /// returns `None` and changes nothing when no frame is open.
    pub fn pop(&mut self) -> (r: Option<u64>)
        ensures
            old(self)@.len() == 0 ==> r.is_none() && final(self)@ == old(self)@,
            old(self)@.len() > 0 ==> r == Some(old(self)@.last()) && final(self)@
                == old(self)@.drop_last(),
    {
        small_vec_pop(&mut self.frames)
    }
}

} // verus!
