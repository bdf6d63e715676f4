//! Bounded per-agent priority mailbox: the highest priority leaves first,
//! equal priorities in arrival order.
use vstd::prelude::*;
use crate::vox::VoxMessage;

verus! {

/// A bounded priority mailbox.
pub struct PriorityMailbox {
    /// Messages in arrival order.
    messages: Vec<VoxMessage>,
    capacity: usize,
}

/// Whether position `i` of `s` is the next to leave: its priority is the
/// highest, and no earlier message has that priority.
pub open spec fn is_next(s: Seq<VoxMessage>, i: int) -> bool {
    &&& 0 <= i < s.len()
    &&& forall|j: int| 0 <= j < s.len() ==> (#[trigger] s[j]).priority <= s[i].priority
    &&& forall|j: int| 0 <= j < i ==> (#[trigger] s[j]).priority < s[i].priority
}

impl PriorityMailbox {
    /// The messages held, in arrival order.
    pub closed spec fn view(&self) -> Seq<VoxMessage> {
        self.messages@
    }

    pub closed spec fn cap(&self) -> nat {
        self.capacity as nat
    }

    pub open spec fn wf(&self) -> bool {
        self.view().len() <= self.cap()
    }

    /// An empty mailbox holding at most `capacity` messages.
    pub fn new(capacity: usize) -> (r: Self)
        ensures
            r.wf(),
            r.view().len() == 0,
            r.cap() == capacity,
    {
        PriorityMailbox { messages: Vec::new(), capacity }
    }

    /// Adds `message`; refuses it, and returns false, when the mailbox is full.
    pub fn push(&mut self, message: VoxMessage) -> (r: bool)
        requires
            old(self).wf(),
        ensures
            final(self).wf(),
            final(self).cap() == old(self).cap(),
            r == (old(self).view().len() < old(self).cap()),
            r ==> final(self).view() == old(self).view().push(message),
            !r ==> final(self).view() == old(self).view(),
    {
        if self.messages.len() >= self.capacity {
            return false;
        }
        self.messages.push(message);
        true
    }

    /// Takes the message of highest priority, the earliest of equal ones.
    pub fn pop(&mut self) -> (r: Option<VoxMessage>)
        requires
            old(self).wf(),
        ensures
            final(self).wf(),
            final(self).cap() == old(self).cap(),
            old(self).view().len() == 0 <==> r is None,
            r is None ==> final(self).view() == old(self).view(),
            r matches Some(m) ==> exists|i: int| {
                &&& #[trigger] is_next(old(self).view(), i)
                &&& m == old(self).view()[i]
                &&& final(self).view() == old(self).view().remove(i)
            },
    {
        if self.messages.len() == 0 {
            return None;
        }
        let mut best: usize = 0;
        let mut i: usize = 1;
        while i < self.messages.len()
            invariant
                1 <= i <= self.messages@.len(),
                best < i,
                forall|j: int| 0 <= j < i ==> (#[trigger] self.messages@[j]).priority <= self.messages@[best as int].priority,
                forall|j: int| 0 <= j < best ==> (#[trigger] self.messages@[j]).priority < self.messages@[best as int].priority,
            decreases self.messages@.len() - i,
        {
            if self.messages[i].priority > self.messages[best].priority {
                best = i;
            }
            i = i + 1;
        }
        let ghost before = self.messages@;
        let m = self.messages.remove(best);
        proof {
            assert(is_next(before, best as int));
        }
        Some(m)
    }

    /// Whether the mailbox holds no message.
    pub fn is_empty(&self) -> (r: bool)
        ensures
            r == (self.view().len() == 0),
    {
        self.messages.len() == 0
    }

    /// Number of messages held.
    pub fn len(&self) -> (r: usize)
        ensures
            r == self.view().len(),
    {
        self.messages.len()
    }
}

} // verus!
