//! A model of the broker's lease protocol at the consumer's boundary: tasks
//! are leased with a visibility deadline, an unacknowledged lease expires and
//! the task becomes leasable again, and completion is idempotent. The model
//! is what the consumer core relies on of the broker, made precise, and it
//! drives the end-to-end tests.

use vstd::prelude::*;
use vstd::pervasive::VecAdditionalExecFns;
use crate::machine::clone_string;

verus! {

/// The broker-side state of one queued task.
#[derive(Clone, Copy, Debug, PartialEq, Eq, Structural)]
pub enum SlotState {
    /// Waiting to be leased.
    Ready,
    /// Leased until the deadline; not visible to other consumers before it.
    Leased { deadline: u64 },
    /// Completion acknowledged; never delivered again.
    Done,
}

/// One queued task.
pub struct Slot {
    pub payload: String,
    pub state: SlotState,
}

/// The consumer's handle on a lease: the slot it names and the deadline the
/// broker granted.
pub struct LeaseHandle {
    pub slot: usize,
    pub deadline: u64,
}

/// The deadline a lease granted at `now` carries: `now + visibility`,
/// saturating at the largest representable time.
pub open spec fn lease_deadline(now: u64, visibility: u64) -> u64 {
    if now + visibility > u64::MAX {
        u64::MAX
    } else {
        (now + visibility) as u64
    }
}

/// A task is leasable when it is ready, or when its lease has expired
/// without completion — that is the redelivery rule.
pub open spec fn leasable(st: SlotState, now: u64) -> bool {
    match st {
        SlotState::Ready => true,
        SlotState::Leased { deadline } => deadline <= now,
        SlotState::Done => false,
    }
}

/// What completing a slot does to the queue: the slot, if it exists, becomes
/// `Done`; nothing else changes.
pub open spec fn spec_complete(m: Seq<(Seq<char>, SlotState)>, slot: int) -> Seq<
    (Seq<char>, SlotState),
> {
    if 0 <= slot < m.len() {
        m.update(slot, (m[slot].0, SlotState::Done))
    } else {
        m
    }
}

/// An in-memory queue that behaves as the broker contract promises.
pub struct QueueModel {
    pub slots: Vec<Slot>,
}

impl View for QueueModel {
    type V = Seq<(Seq<char>, SlotState)>;

    open spec fn view(&self) -> Seq<(Seq<char>, SlotState)> {
        self.slots@.map_values(|s: Slot| (s.payload@, s.state))
    }
}

impl QueueModel {
    /// An empty queue.
    pub fn new() -> (q: QueueModel)
        ensures
            q@ == Seq::<(Seq<char>, SlotState)>::empty(),
    {
        let q = QueueModel { slots: Vec::new() };
        proof {
            assert(q@ =~= Seq::<(Seq<char>, SlotState)>::empty());
        }
        q
    }

    /// A producer pushes a task; it starts out ready.
    pub fn push_task(&mut self, payload: String)
        ensures
            final(self)@ == old(self)@.push((payload@, SlotState::Ready)),
    {
        let ghost p = payload@;
        self.slots.push(Slot { payload, state: SlotState::Ready });
        proof {
            assert(self@ =~= old(self)@.push((p, SlotState::Ready)));
        }
    }

    /// Leases the first leasable task, if any: the slot becomes leased until
    /// `now + visibility` (saturating), and the caller gets the handle and
    /// the payload. Returns nothing exactly when no task is leasable — so a
    /// task whose lease deadline has passed without completion is granted
    /// again, to whichever consumer asks first.
    pub fn lease(&mut self, now: u64, visibility: u64) -> (r: Option<(LeaseHandle, String)>)
        ensures
            match r {
                Some((h, p)) => {
                    &&& 0 <= h.slot < old(self)@.len()
                    &&& leasable(old(self)@[h.slot as int].1, now)
                    &&& forall|j: int| 0 <= j < h.slot ==> !leasable(old(self)@[j].1, now)
                    &&& h.deadline == lease_deadline(now, visibility)
                    &&& p@ == old(self)@[h.slot as int].0
                    &&& final(self)@ == old(self)@.update(
                        h.slot as int,
                        (p@, SlotState::Leased { deadline: h.deadline }),
                    )
                },
                None => {
                    &&& final(self)@ == old(self)@
                    &&& forall|j: int| 0 <= j < old(self)@.len() ==> !leasable(old(self)@[j].1, now)
                },
            },
{
    let deadline = match now.checked_add(visibility) {
        Some(d) => d,
        None => u64::MAX,
    };
    let n = self.slots.len();
    let mut i: usize = 0;
    while i < n
        invariant
            i <= n,
            n == self.slots@.len(),
            *self == *old(self),
            forall|j: int| 0 <= j < i ==> !leasable(old(self)@[j].1, now),
            deadline == lease_deadline(now, visibility),
        decreases n - i,
    {
        let grab = match self.slots[i].state {
            SlotState::Ready => true,
            SlotState::Leased { deadline: d } => d <= now,
            SlotState::Done => false,
        };
        if grab {
            let payload = clone_string(&self.slots[i].payload);
            let payload2 = clone_string(&payload);
            self.slots.set(i, Slot { payload, state: SlotState::Leased { deadline } });
            proof {
                assert(self@ =~= old(self)@.update(
                    i as int,
                    (payload2@, SlotState::Leased { deadline }),
                ));
            }
            return Some((LeaseHandle { slot: i, deadline }, payload2));
        }
        i += 1;
    }
    None
}

    /// Retires a lease. Completing any existing slot acknowledges it — also
    /// one that was already completed or whose lease has expired: the call is
    /// idempotent and never corrupts other slots. A handle naming no slot is
    /// answered with a benign failure.
    pub fn complete(&mut self, h: &LeaseHandle) -> (ack: bool)
        ensures
            final(self)@ == spec_complete(old(self)@, h.slot as int),
            ack == (h.slot < old(self)@.len()),
    {
        if h.slot < self.slots.len() {
            let payload = clone_string(&self.slots[h.slot].payload);
            self.slots.set(h.slot, Slot { payload, state: SlotState::Done });
            proof {
                assert(self@ =~= spec_complete(old(self)@, h.slot as int));
            }
            true
        } else {
            false
        }
    }
}

/// Completion is idempotent: completing a slot a second time (or any number
/// of further times) leaves the queue exactly as the first completion left
/// it, so a duplicate completion call can never corrupt the queue.
pub proof fn lemma_complete_idempotent(m: Seq<(Seq<char>, SlotState)>, slot: int)
    ensures
        spec_complete(spec_complete(m, slot), slot) == spec_complete(m, slot),
{
    if 0 <= slot < m.len() {
        assert(spec_complete(spec_complete(m, slot), slot) =~= spec_complete(m, slot));
    }
}

/// Redelivery: a task whose lease deadline has passed without completion is
/// leasable again, so a queue holding such a task answers the next lease
/// call with some task rather than with nothing.
pub proof fn lemma_redelivery(m: Seq<(Seq<char>, SlotState)>, i: int, now: u64)
    requires
        0 <= i < m.len(),
        m[i].1 matches SlotState::Leased { deadline } && deadline <= now,
    ensures
        leasable(m[i].1, now),
        exists|j: int| 0 <= j < m.len() && leasable(#[trigger] m[j].1, now),
{
    assert(leasable(m[i].1, now));
}

} // verus!
