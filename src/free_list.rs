use vstd::prelude::*;

verus! {

/// A bounded first-in first-out queue of handles that are ready for reuse,
/// held as the two ends of one crossbeam channel. Both ends stay inside, so
/// nothing but this value sends into or receives from the channel.
#[verifier::external_body]
pub struct FreeList {
    tx: crossbeam_channel::Sender<usize>,
    rx: crossbeam_channel::Receiver<usize>,
}

/// The handles queued in the channel, oldest first.
pub uninterp spec fn queued(q: FreeList) -> Seq<usize>;

/// The bound that the channel was made with.
pub uninterp spec fn bound_of(q: FreeList) -> nat;

impl FreeList {
    /// Relies on crossbeam_channel::bounded: a new, empty channel holding at most `cap` messages.
    #[verifier::external_body]
    pub(crate) fn bounded(cap: usize) -> (r: FreeList)
        requires
            cap > 0,
        ensures
            queued(r) == Seq::<usize>::empty(),
            bound_of(r) == cap,
    {
        let (tx, rx) = crossbeam_channel::bounded(cap);
        FreeList { tx, rx }
    }

    /// Relies on crossbeam_channel::Receiver::len: the number of queued messages.
    #[verifier::external_body]
    pub(crate) fn len(&self) -> (r: usize)
        ensures
            r == queued(*self).len(),
    {
        self.rx.len()
    }

    /// Relies on crossbeam_channel::Receiver::try_recv: takes the oldest message, if any,
    /// without blocking. The sender lives in the same value, so the channel is never
    /// disconnected while it is asked.
    #[verifier::external_body]
    pub(crate) fn try_recv(&mut self) -> (r: Option<usize>)
        ensures
            bound_of(*final(self)) == bound_of(*old(self)),
            queued(*old(self)).len() == 0 ==> r is None && queued(*final(self)) == queued(
                *old(self),
            ),
            queued(*old(self)).len() > 0 ==> r == Some(queued(*old(self))[0]) && queued(
                *final(self),
            ) == queued(*old(self)).drop_first(),
    {
        self.rx.try_recv().ok()
    }

    /// Relies on crossbeam_channel::Sender::try_send: queues the message unless the channel
    /// is full, without blocking. The receiver lives in the same value, so the channel is
    /// never disconnected while it is asked.
    #[verifier::external_body]
    pub(crate) fn try_send(&mut self, id: usize) -> (r: bool)
        ensures
            bound_of(*final(self)) == bound_of(*old(self)),
            r == (queued(*old(self)).len() < bound_of(*old(self))),
            r ==> queued(*final(self)) == queued(*old(self)).push(id),
            !r ==> queued(*final(self)) == queued(*old(self)),
    {
        self.tx.try_send(id).is_ok()
    }
}

} // verus!
