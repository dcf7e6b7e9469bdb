//! The shared state behind one call's reply: where the reply is put when it
//! arrives, and where the task that waits for it leaves its waker.

use vstd::prelude::*;

verus! {

/// What polling the reply gives.
pub enum ReplyPoll<T> {
    /// The reply has arrived; this is a clone of it.
    Ready(T),
    /// No reply yet.
    Pending,
}

/// What resolving the reply asks its caller to do next.
pub enum ResolveAction<W> {
    /// Wake the waiting task with this clone of its waker.
    Wake(W),
    /// Nobody has polled the reply yet, so there is no task to wake.
    NeverAwaited,
}

/// One call's reply (of type `T`) and the waker (of type `W`) of the task
/// that waits for it.
pub struct ReplySlot<T, W> {
    delivery: Option<T>,
    waker: Option<W>,
}

impl<T, W> ReplySlot<T, W> {
    /// The reply, once it has arrived.
    pub closed spec fn delivery(&self) -> Option<T> {
        self.delivery
    }

    /// The waker that the latest poll left.
    pub closed spec fn waker(&self) -> Option<W> {
        self.waker
    }

    /// A slot with no reply and no waker.
    pub fn new() -> (res: Self)
        ensures
            res.delivery() is None,
            res.waker() is None,
    {
        ReplySlot { delivery: None, waker: None }
    }

    /// Whether some task has polled the slot (and left a waker there).
    pub fn is_awaited(&self) -> (res: bool)
        ensures
            res == self.waker() is Some,
    {
        self.waker.is_some()
    }

    /// Polls the reply on behalf of the task whose waker is `waker`: the waker
    /// is kept (replacing any earlier one) and a clone of the reply is handed
    /// out if it has arrived.
    pub fn poll(&mut self, waker: W) -> (res: ReplyPoll<T>) where T: Clone
        ensures
            polled(*old(self), waker, *final(self), res),
            slot_step(*old(self), SlotEvent::Poll(waker), *final(self)),
    {
        self.waker = Some(waker);
        match &self.delivery {
            Some(d) => ReplyPoll::Ready(d.clone()),
            None => ReplyPoll::Pending,
        }
    }

    /// Puts the arrived reply in the slot and says whom to wake: a clone of the
    /// waker that the latest poll left, or nobody if no task has polled yet.
    pub fn resolve(&mut self, delivery: T) -> (res: ResolveAction<W>) where W: Clone
        ensures
            resolved(*old(self), delivery, *final(self), res),
            slot_step(*old(self), SlotEvent::Resolve(delivery), *final(self)),
    {
        self.delivery = Some(delivery);
        match &self.waker {
            Some(w) => ResolveAction::Wake(w.clone()),
            None => ResolveAction::NeverAwaited,
        }
    }
}

/// `after` and `res` are what polling `before` with `waker` gives.
pub open spec fn polled<T: Clone, W>(
    before: ReplySlot<T, W>,
    waker: W,
    after: ReplySlot<T, W>,
    res: ReplyPoll<T>,
) -> bool {
    &&& after.waker() == Some(waker)
    &&& after.delivery() == before.delivery()
    &&& match before.delivery() {
        Some(d) => res matches ReplyPoll::Ready(v) && cloned(d, v),
        None => res is Pending,
    }
}

/// `after` and `res` are what resolving `before` with `delivery` gives.
pub open spec fn resolved<T, W: Clone>(
    before: ReplySlot<T, W>,
    delivery: T,
    after: ReplySlot<T, W>,
    res: ResolveAction<W>,
) -> bool {
    &&& after.delivery() == Some(delivery)
    &&& after.waker() == before.waker()
    &&& match before.waker() {
        Some(w) => res matches ResolveAction::Wake(x) && cloned(w, x),
        None => res is NeverAwaited,
    }
}

/// A reply resolved into a slot is what every later poll of that slot hands out.
pub proof fn lemma_resolve_then_poll<T: Clone, W: Clone>(
    s0: ReplySlot<T, W>,
    delivery: T,
    s1: ReplySlot<T, W>,
    action: ResolveAction<W>,
    waker: W,
    s2: ReplySlot<T, W>,
    res: ReplyPoll<T>,
)
    requires
        resolved(s0, delivery, s1, action),
        polled(s1, waker, s2, res),
    ensures
        res matches ReplyPoll::Ready(v) && cloned(delivery, v),
        s2.delivery() == Some(delivery),
{
}

/// A task that polled a slot before its reply came is woken when the reply is
/// resolved into it.
pub proof fn lemma_poll_then_resolve_wakes<T: Clone, W: Clone>(
    s0: ReplySlot<T, W>,
    waker: W,
    s1: ReplySlot<T, W>,
    res: ReplyPoll<T>,
    delivery: T,
    s2: ReplySlot<T, W>,
    action: ResolveAction<W>,
)
    requires
        polled(s0, waker, s1, res),
        resolved(s1, delivery, s2, action),
    ensures
        action matches ResolveAction::Wake(x) && cloned(waker, x),
{
}

/// Before any reply is resolved into a fresh slot, polling it gives `Pending`;
/// resolving a fresh slot that was never polled finds no task to wake.
pub proof fn lemma_fresh_slot<T: Clone, W: Clone>(
    s0: ReplySlot<T, W>,
    waker: W,
    s1: ReplySlot<T, W>,
    res: ReplyPoll<T>,
    delivery: T,
    s2: ReplySlot<T, W>,
    action: ResolveAction<W>,
)
    requires
        s0.delivery() is None,
        s0.waker() is None,
        polled(s0, waker, s1, res),
        resolved(s0, delivery, s2, action),
    ensures
        res is Pending,
        action is NeverAwaited,
{
}

/// Something that happens to a slot: a poll by the task with the given waker,
/// or the arrival of the given reply.
pub enum SlotEvent<T, W> {
    Poll(W),
    Resolve(T),
}

/// `after` is the slot that `event` leaves `before` in, as `poll` and `resolve`
/// leave it.
pub open spec fn slot_step<T, W>(before: ReplySlot<T, W>, event: SlotEvent<T, W>, after: ReplySlot<
    T,
    W,
>) -> bool {
    match event {
        SlotEvent::Poll(w) => after.waker() == Some(w) && after.delivery() == before.delivery(),
        SlotEvent::Resolve(d) => after.delivery() == Some(d) && after.waker() == before.waker(),
    }
}

/// `slots` is a run of a slot through `events`: each slot is what the event
/// before it leaves the previous one in.
pub open spec fn slot_run<T, W>(slots: Seq<ReplySlot<T, W>>, events: Seq<SlotEvent<T, W>>) -> bool {
    &&& slots.len() == events.len() + 1
    &&& forall|k: int|
        0 <= k < events.len() ==> slot_step(slots[k], #[trigger] events[k], slots[k + 1])
}

/// Whether event `k` of `events` is the arrival of a reply.
pub open spec fn is_resolve<T, W>(events: Seq<SlotEvent<T, W>>, k: int) -> bool {
    events[k] is Resolve
}

/// A call gets its reply whatever the timing: in any run of a fresh slot through
/// polls and one arrival of `delivery`, in whatever order they come,
/// - every poll before the arrival finds no reply,
/// - every poll after it finds the reply,
/// - at the arrival, the task that polled last before it (if any) is the one
///   whose waker the slot holds, so it is the one woken.
pub proof fn lemma_reply_whatever_the_timing<T, W>(
    slots: Seq<ReplySlot<T, W>>,
    events: Seq<SlotEvent<T, W>>,
    arrival: int,
    delivery: T,
)
    requires
        slot_run(slots, events),
        slots[0].delivery() is None,
        slots[0].waker() is None,
        0 <= arrival < events.len(),
        events[arrival] == SlotEvent::<T, W>::Resolve(delivery),
        forall|k: int| 0 <= k < events.len() && k != arrival ==> !is_resolve(events, k),
    ensures
        forall|k: int| 0 <= k <= arrival ==> (#[trigger] slots[k]).delivery() is None,
        forall|k: int| arrival < k < slots.len() ==> (#[trigger] slots[k]).delivery() == Some(delivery),
        forall|j: int|
            0 <= j < arrival && (#[trigger] events[j] matches SlotEvent::Poll(w)) && (forall|i: int|
                j < i < arrival ==> !(events[i] is Poll)) ==> slots[arrival].waker() == Some(
                events[j]->Poll_0,
            ),
        (forall|i: int| 0 <= i < arrival ==> !(events[i] is Poll)) ==> slots[arrival].waker() is None,
{
    assert forall|k: int| 0 <= k <= arrival implies (#[trigger] slots[k]).delivery() is None by {
        lemma_no_reply_before(slots, events, arrival, k);
    }
    assert forall|k: int| arrival < k < slots.len() implies (#[trigger] slots[k]).delivery() == Some(
        delivery,
    ) by {
        lemma_reply_after(slots, events, arrival, delivery, k);
    }
    assert forall|j: int|
        0 <= j < arrival && (#[trigger] events[j] matches SlotEvent::Poll(w)) && (forall|i: int|
            j < i < arrival ==> !(events[i] is Poll)) implies slots[arrival].waker() == Some(
        events[j]->Poll_0,
    ) by {
        lemma_waker_kept(slots, events, j, arrival);
    }
    if forall|i: int| 0 <= i < arrival ==> !(events[i] is Poll) {
        lemma_no_waker_before(slots, events, arrival);
    }
}

proof fn lemma_no_reply_before<T, W>(
    slots: Seq<ReplySlot<T, W>>,
    events: Seq<SlotEvent<T, W>>,
    arrival: int,
    k: int,
)
    requires
        slot_run(slots, events),
        slots[0].delivery() is None,
        0 <= k <= arrival < events.len(),
        forall|i: int| 0 <= i < events.len() && i != arrival ==> !is_resolve(events, i),
    ensures
        slots[k].delivery() is None,
    decreases k,
{
    if k > 0 {
        lemma_no_reply_before(slots, events, arrival, k - 1);
        assert(!is_resolve(events, k - 1));
        assert(slot_step(slots[k - 1], events[k - 1], slots[k]));
    }
}

proof fn lemma_reply_after<T, W>(
    slots: Seq<ReplySlot<T, W>>,
    events: Seq<SlotEvent<T, W>>,
    arrival: int,
    delivery: T,
    k: int,
)
    requires
        slot_run(slots, events),
        0 <= arrival < k < slots.len(),
        events[arrival] == SlotEvent::<T, W>::Resolve(delivery),
        forall|i: int| 0 <= i < events.len() && i != arrival ==> !is_resolve(events, i),
    ensures
        slots[k].delivery() == Some(delivery),
    decreases k,
{
    assert(slot_step(slots[k - 1], events[k - 1], slots[k]));
    if k - 1 > arrival {
        lemma_reply_after(slots, events, arrival, delivery, k - 1);
        assert(!is_resolve(events, k - 1));
    }
}

proof fn lemma_waker_kept<T, W>(
    slots: Seq<ReplySlot<T, W>>,
    events: Seq<SlotEvent<T, W>>,
    j: int,
    k: int,
)
    requires
        slot_run(slots, events),
        0 <= j < k < slots.len(),
        events[j] is Poll,
        forall|i: int| j < i < k ==> !(events[i] is Poll),
    ensures
        slots[k].waker() == Some(events[j]->Poll_0),
    decreases k,
{
    assert(slot_step(slots[k - 1], events[k - 1], slots[k]));
    if k - 1 > j {
        lemma_waker_kept(slots, events, j, k - 1);
        assert(!(events[k - 1] is Poll));
    }
}

proof fn lemma_no_waker_before<T, W>(
    slots: Seq<ReplySlot<T, W>>,
    events: Seq<SlotEvent<T, W>>,
    k: int,
)
    requires
        slot_run(slots, events),
        slots[0].waker() is None,
        0 <= k < slots.len(),
        forall|i: int| 0 <= i < k ==> !(events[i] is Poll),
    ensures
        slots[k].waker() is None,
    decreases k,
{
    if k > 0 {
        lemma_no_waker_before(slots, events, k - 1);
        assert(slot_step(slots[k - 1], events[k - 1], slots[k]));
        assert(!(events[k - 1] is Poll));
    }
}

} // verus!
