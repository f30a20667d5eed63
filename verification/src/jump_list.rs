//! The jump list kept by the editor: the places jumped from, oldest first,
//! and a cursor into them. A new place is appended after all the others.

use crate::buffer::BufferID;
use crate::jump::{jump_view, lemma_without_buffer, same_jump, without_buffer, JumpView, JUMP_LIST_CAPACITY};
use crate::selection::Selection;
use std::collections::VecDeque;
use vstd::prelude::*;

verus! {

/// The list after pushing `j` onto `js` with cursor `cur`: unless `j` is
/// already the last jump, the oldest jumps are dropped until there is room,
/// `j` is appended and the cursor moves past it.
pub open spec fn append_spec(js: Seq<JumpView>, cur: nat, j: JumpView) -> (Seq<JumpView>, nat) {
    let t = js;
    if t.len() > 0 && t.last() == j {
        (t, cur)
    } else {
        let kept = if t.len() >= JUMP_LIST_CAPACITY { t.skip(t.len() - (JUMP_LIST_CAPACITY - 1)) } else { t };
        (kept.push(j), kept.len() + 1)
    }
}

/// Where the cursor ends after moving `count` jumps forward from `cur` in a
/// list of `len` jumps: it stays where there are not that many ahead.
pub open spec fn forward_cursor(len: nat, cur: nat, count: nat) -> nat {
    if cur + count < len {
        cur + count
    } else {
        cur
    }
}

/// Where the cursor ends after moving `count` jumps back from `cur`: it
/// stays where there are not that many behind.
pub open spec fn backward_cursor(cur: nat, count: nat) -> nat {
    if count <= cur {
        (cur - count) as nat
    } else {
        cur
    }
}

/// Going `count` jumps forward and then `count` back returns the cursor to
/// where it was, when the forward move could be made.
pub proof fn lemma_forward_then_backward(len: nat, cur: nat, count: nat)
    requires
        cur + count < len,
    ensures
        backward_cursor(forward_cursor(len, cur, count), count) == cur,
{
}

pub struct JumpList {
    jumps: VecDeque<(BufferID, Selection)>,
    current: usize,
}

impl View for JumpList {
    type V = (Seq<JumpView>, nat);

    closed spec fn view(&self) -> (Seq<JumpView>, nat) {
        (self.jumps@.map_values(|j: (BufferID, Selection)| jump_view(j)), self.current as nat)
    }
}

impl JumpList {
    #[verifier::type_invariant]
    closed spec fn within_capacity(self) -> bool {
        &&& self.jumps@.len() <= JUMP_LIST_CAPACITY
        &&& self.current <= JUMP_LIST_CAPACITY
    }

    /// The number of jumps the list holds, never more than `JUMP_LIST_CAPACITY`.
    pub fn len(&self) -> (n: usize)
        ensures
            n == self@.0.len(),
            n <= JUMP_LIST_CAPACITY,
            self@.1 <= JUMP_LIST_CAPACITY,
    {
        proof {
            use_type_invariant(self);
        }
        self.jumps.len()
    }

    /// A list of the one jump `initial`, with the cursor on it.
    pub fn new(initial: (BufferID, Selection)) -> (l: JumpList)
        ensures
            l@.0 == seq![jump_view(initial)],
            l@.1 == 0,
    {
        let mut jumps = VecDeque::with_capacity(JUMP_LIST_CAPACITY);
        jumps.push_back(initial);
        let l = JumpList { jumps, current: 0 };
        proof {
            assert(l@.0 =~= seq![jump_view(initial)]);
        }
        l
    }

    /// Records `jump` as the newest place, after all the others (unless it is
    /// the newest already), dropping the oldest places when the list is full;
    /// the cursor moves past it.
    pub fn push(&mut self, jump: (BufferID, Selection))
        ensures
            final(self)@ == append_spec(old(self)@.0, old(self)@.1, jump_view(jump)),
            final(self)@.0.len() <= JUMP_LIST_CAPACITY,
            final(self)@.0.len() > 0 && final(self)@.0.last() == jump_view(jump),
    {
        proof {
            use_type_invariant(&*self);
        }
        let ghost js = self@.0;
        let mut jumps: VecDeque<(BufferID, Selection)> = VecDeque::new();
        std::mem::swap(&mut jumps, &mut self.jumps);
        let ghost t = jumps@.map_values(|j: (BufferID, Selection)| jump_view(j));
        let n = jumps.len();
        let dup = n > 0 && same_jump(&jumps[n - 1], &jump);
        if !dup {
            while jumps.len() >= JUMP_LIST_CAPACITY
                invariant
                    jumps@.len() <= JUMP_LIST_CAPACITY,
                    t.len() <= JUMP_LIST_CAPACITY,
                    jumps@.map_values(|j: (BufferID, Selection)| jump_view(j)) == (if t.len() >= JUMP_LIST_CAPACITY && jumps@.len() < JUMP_LIST_CAPACITY {
                        t.skip(t.len() - (JUMP_LIST_CAPACITY - 1))
                    } else {
                        t
                    }),
                    jumps@.len() >= JUMP_LIST_CAPACITY ==> jumps@.len() == t.len(),
                decreases jumps.len(),
            {
                let _ = jumps.pop_front();
                proof {
                    assert(jumps@.map_values(|j: (BufferID, Selection)| jump_view(j)) =~= t.skip(t.len() - (JUMP_LIST_CAPACITY - 1)));
                }
            }
            jumps.push_back(jump);
            let len = jumps.len();
            self.jumps = jumps;
            self.current = len;
            proof {
                let kept = if t.len() >= JUMP_LIST_CAPACITY { t.skip(t.len() - (JUMP_LIST_CAPACITY - 1)) } else { t };
                assert(self@.0 =~= kept.push(jump_view(jump)));
            }
        } else {
            self.jumps = jumps;
        }
    }

    /// Moves the cursor `count` jumps forward and returns the jump it lands
    /// on, if there is one there.
    pub fn forward(&mut self, count: usize) -> (r: Option<&(BufferID, Selection)>)
        ensures
            final(self)@.0 == old(self)@.0,
            final(self)@.1 == forward_cursor(old(self)@.0.len(), old(self)@.1, count as nat),
            old(self)@.1 + count < old(self)@.0.len() ==> {
                &&& final(self)@ == (old(self)@.0, (old(self)@.1 + count) as nat)
                &&& r.is_some()
                &&& jump_view(*r.unwrap()) == old(self)@.0[old(self)@.1 + count]
            },
            !(old(self)@.1 + count < old(self)@.0.len()) ==> final(self)@ == old(self)@ && r.is_none(),
    {
        proof {
            use_type_invariant(&*self);
        }
        if self.current < self.jumps.len() && count < self.jumps.len() - self.current {
            self.current = self.current + count;
            Some(&self.jumps[self.current])
        } else {
            None
        }
    }

    /// Moves the cursor `count` jumps back and returns the jump it lands on,
    /// if there is one there.
    pub fn backward(&mut self, count: usize) -> (r: Option<&(BufferID, Selection)>)
        ensures
            final(self)@.0 == old(self)@.0,
            final(self)@.1 == backward_cursor(old(self)@.1, count as nat),
            count > old(self)@.1 ==> final(self)@ == old(self)@ && r.is_none(),
            count <= old(self)@.1 ==> {
                let cur = old(self)@.1 - count;
                &&& final(self)@ == (old(self)@.0, cur as nat)
                &&& cur < old(self)@.0.len() ==> r.is_some() && jump_view(*r.unwrap()) == old(self)@.0[cur]
                &&& cur >= old(self)@.0.len() ==> r.is_none()
            },
    {
        proof {
            use_type_invariant(&*self);
        }
        if count <= self.current {
            self.current = self.current - count;
            if self.current < self.jumps.len() {
                Some(&self.jumps[self.current])
            } else {
                None
            }
        } else {
            None
        }
    }

    /// Drops every jump into buffer `buffer_id`.
    pub fn remove(&mut self, buffer_id: &BufferID)
        ensures
            final(self)@ == (without_buffer(old(self)@.0, *buffer_id), old(self)@.1),
            final(self)@.0.len() <= old(self)@.0.len(),
            forall|i: int| 0 <= i < final(self)@.0.len() ==> (#[trigger] final(self)@.0[i]).0 != *buffer_id,
    {
        proof {
            use_type_invariant(&*self);
        }
        let ghost js = self@.0;
        let mut kept: VecDeque<(BufferID, Selection)> = VecDeque::new();
        let mut i: usize = 0;
        let n = self.jumps.len();
        assert(n <= JUMP_LIST_CAPACITY);
        while i < n
            invariant
                n == self.jumps@.len(),
                n <= JUMP_LIST_CAPACITY,
                0 <= i <= n,
                js == self.jumps@.map_values(|j: (BufferID, Selection)| jump_view(j)),
                kept@.map_values(|j: (BufferID, Selection)| jump_view(j)) == without_buffer(js.take(i as int), *buffer_id),
                kept@.len() <= i,
            decreases n - i,
        {
            proof {
                assert(js.take(i + 1).drop_last() =~= js.take(i as int));
            }
            if self.jumps[i].0 != *buffer_id {
                kept.push_back((self.jumps[i].0, self.jumps[i].1.clone()));
                proof {
                    assert(kept@.map_values(|j: (BufferID, Selection)| jump_view(j)) =~= without_buffer(js.take(i + 1), *buffer_id));
                }
            }
            i = i + 1;
        }
        proof {
            assert(js.take(n as int) =~= js);
            lemma_without_buffer(js, *buffer_id);
        }
        self.jumps = kept;
    }

    /// The jumps, oldest first.
    pub fn iter(&self) -> (r: &VecDeque<(BufferID, Selection)>)
        ensures
            r@.map_values(|j: (BufferID, Selection)| jump_view(j)) == self@.0,
    {
        &self.jumps
    }
}

} // verus!
