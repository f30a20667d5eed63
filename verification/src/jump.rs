//! The jump list of a view: the places it jumped from, oldest first, and a
//! cursor into them. Going back from the newest place first records where
//! the view stands, so that going forward again returns there.

use crate::buffer::{Buffer, BufferID, BufferViewID};
use crate::selection::{Range, Selection};
use std::collections::VecDeque;
use vstd::prelude::*;

verus! {

/// How many jumps a list keeps; pushing onto a full list drops the oldest.
pub const JUMP_LIST_CAPACITY: usize = 30;

/// A jump as the contracts see it: its buffer and its selection's view.
pub type JumpView = (BufferID, (Seq<Range>, usize));

pub open spec fn jump_view(j: (BufferID, Selection)) -> JumpView {
    (j.0, j.1@)
}

/// The jumps of `js` that are not in buffer `id`, in their order.
pub open spec fn without_buffer(js: Seq<JumpView>, id: BufferID) -> Seq<JumpView>
    decreases js.len(),
{
    if js.len() == 0 {
        js
    } else {
        let rest = without_buffer(js.drop_last(), id);
        if js.last().0 != id {
            rest.push(js.last())
        } else {
            rest
        }
    }
}

/// Dropping the jumps into buffer `id` leaves no jump into it and never
/// adds jumps.
pub proof fn lemma_without_buffer(js: Seq<JumpView>, id: BufferID)
    ensures
        without_buffer(js, id).len() <= js.len(),
        forall|i: int| 0 <= i < without_buffer(js, id).len() ==> (#[trigger] without_buffer(js, id)[i]).0 != id,
    decreases js.len(),
{
    if js.len() > 0 {
        lemma_without_buffer(js.drop_last(), id);
    }
}

/// Pushing the same jump twice is pushing it once.
pub proof fn lemma_push_idempotent(js: Seq<JumpView>, cur: nat, j: JumpView)
    ensures
        push_spec(push_spec(js, cur, j).0, push_spec(js, cur, j).1, j) == push_spec(js, cur, j),
{
    let (js1, cur1) = push_spec(js, cur, j);
    let t = if cur < js.len() { js.take(cur as int) } else { js };
    if t.len() > 0 && t.last() == j {
        if cur < js.len() {
            assert(js1.len() == cur);
            assert(js1.take(cur as int) =~= js1);
        }
    } else {
        assert(cur1 == js1.len());
    }
}

/// The list after pushing `j` onto `js` with cursor `cur`: the jumps after
/// the cursor are dropped; unless `j` is already the last jump, the oldest
/// jumps are dropped until there is room, `j` is appended and the cursor
/// moves past it.
pub open spec fn push_spec(js: Seq<JumpView>, cur: nat, j: JumpView) -> (Seq<JumpView>, nat) {
    let t = if cur < js.len() { js.take(cur as int) } else { js };
    if t.len() > 0 && t.last() == j {
        (t, cur)
    } else {
        let kept = if t.len() >= JUMP_LIST_CAPACITY { t.skip(t.len() - (JUMP_LIST_CAPACITY - 1)) } else { t };
        (kept.push(j), kept.len() + 1)
    }
}

/// Whether two jumps are the same: same buffer, same selection.
pub fn same_jump(a: &(BufferID, Selection), b: &(BufferID, Selection)) -> (r: bool)
    ensures
        r == (jump_view(*a) == jump_view(*b)),
{
    a.0 == b.0 && a.1.same_as(&b.1)
}

pub struct JumpList {
    jumps: VecDeque<(BufferID, Selection)>,
    current: usize,
}

impl View for JumpList {
    type V = (Seq<JumpView>, nat);

    closed spec fn view(&self) -> (Seq<JumpView>, nat) {
        (self.jumps@.map_values(|j: (BufferID, Selection)| jump_view(j)), self.current as nat)
    }
}

impl JumpList {
    #[verifier::type_invariant]
    closed spec fn within_capacity(self) -> bool {
        &&& self.jumps@.len() <= JUMP_LIST_CAPACITY
        &&& self.current <= JUMP_LIST_CAPACITY
    }

    /// The number of jumps the list holds, never more than `JUMP_LIST_CAPACITY`.
    pub fn len(&self) -> (n: usize)
        ensures
            n == self@.0.len(),
            n <= JUMP_LIST_CAPACITY,
            self@.1 <= JUMP_LIST_CAPACITY,
    {
        proof {
            use_type_invariant(self);
        }
        self.jumps.len()
    }

    /// A list of the one jump `initial`, with the cursor on it.
    pub fn new(initial: (BufferID, Selection)) -> (l: JumpList)
        ensures
            l@.0 == seq![jump_view(initial)],
            l@.1 == 0,
    {
        let mut jumps = VecDeque::with_capacity(JUMP_LIST_CAPACITY);
        jumps.push_back(initial);
        let l = JumpList { jumps, current: 0 };
        proof {
            assert(l@.0 =~= seq![jump_view(initial)]);
        }
        l
    }

    /// Records `jump` as the newest place, dropping the places after the cursor.
    pub fn push(&mut self, jump: (BufferID, Selection))
        ensures
            final(self)@ == push_spec(old(self)@.0, old(self)@.1, jump_view(jump)),
            final(self)@.0.len() <= JUMP_LIST_CAPACITY,
            final(self)@.0.len() > 0 && final(self)@.0.last() == jump_view(jump),
    {
        proof {
            use_type_invariant(&*self);
        }
        let ghost js = self@.0;
        let mut jumps: VecDeque<(BufferID, Selection)> = VecDeque::new();
        std::mem::swap(&mut jumps, &mut self.jumps);
        jumps.truncate(self.current);
        let ghost t = jumps@.map_values(|j: (BufferID, Selection)| jump_view(j));
        proof {
            let t0 = if self.current < js.len() { js.take(self.current as int) } else { js };
            assert(t =~= t0);
        }
        let n = jumps.len();
        let dup = n > 0 && same_jump(&jumps[n - 1], &jump);
        if !dup {
            while jumps.len() >= JUMP_LIST_CAPACITY
                invariant
                    jumps@.len() <= JUMP_LIST_CAPACITY,
                    t.len() <= JUMP_LIST_CAPACITY,
                    jumps@.map_values(|j: (BufferID, Selection)| jump_view(j)) == (if t.len() >= JUMP_LIST_CAPACITY && jumps@.len() < JUMP_LIST_CAPACITY {
                        t.skip(t.len() - (JUMP_LIST_CAPACITY - 1))
                    } else {
                        t
                    }),
                    jumps@.len() >= JUMP_LIST_CAPACITY ==> jumps@.len() == t.len(),
                decreases jumps.len(),
            {
                let _ = jumps.pop_front();
                proof {
                    assert(jumps@.map_values(|j: (BufferID, Selection)| jump_view(j)) =~= t.skip(t.len() - (JUMP_LIST_CAPACITY - 1)));
                }
            }
            jumps.push_back(jump);
            let len = jumps.len();
            self.jumps = jumps;
            self.current = len;
            proof {
                let kept = if t.len() >= JUMP_LIST_CAPACITY { t.skip(t.len() - (JUMP_LIST_CAPACITY - 1)) } else { t };
                assert(self@.0 =~= kept.push(jump_view(jump)));
            }
        } else {
            self.jumps = jumps;
        }
    }

    /// Moves the cursor `count` jumps forward and returns the jump it lands
    /// on, if there is one there.
    pub fn forward(&mut self, count: usize) -> (r: Option<&(BufferID, Selection)>)
        ensures
            old(self)@.1 + count < old(self)@.0.len() ==> {
                &&& final(self)@ == (old(self)@.0, (old(self)@.1 + count) as nat)
                &&& r.is_some()
                &&& jump_view(*r.unwrap()) == old(self)@.0[old(self)@.1 + count]
            },
            !(old(self)@.1 + count < old(self)@.0.len()) ==> final(self)@ == old(self)@ && r.is_none(),
    {
        proof {
            use_type_invariant(&*self);
        }
        if self.current < self.jumps.len() && count < self.jumps.len() - self.current {
            self.current = self.current + count;
            Some(&self.jumps[self.current])
        } else {
            None
        }
    }

    /// Moves the cursor `count` jumps back and returns the jump it lands on.
    /// Leaving the newest place first records where the view stands
    /// (`buffer`'s id and the view's selection), so that it can be returned to.
    pub fn backward(&mut self, buffer_view_id: BufferViewID, buffer: &Buffer, count: usize) -> (r: Option<&(BufferID, Selection)>)
        requires
            count <= old(self)@.1 && old(self)@.1 == old(self)@.0.len() ==> buffer.selection_spec(buffer_view_id).is_some(),
        ensures
            count > old(self)@.1 ==> final(self)@ == old(self)@ && r.is_none(),
            count <= old(self)@.1 ==> {
                let js = if old(self)@.1 == old(self)@.0.len() {
                    push_spec(
                        old(self)@.0,
                        old(self)@.1,
                        (buffer.id, buffer.selection_spec(buffer_view_id).unwrap()@),
                    ).0
                } else {
                    old(self)@.0
                };
                let cur = old(self)@.1 - count;
                &&& final(self)@ == (js, cur as nat)
                &&& cur < js.len() ==> r.is_some() && jump_view(*r.unwrap()) == js[cur]
                &&& cur >= js.len() ==> r.is_none()
            },
    {
        proof {
            use_type_invariant(&*self);
        }
        if count <= self.current {
            let current = self.current - count;
            if self.current == self.jumps.len() {
                let jump = (buffer.id(), buffer.selection(buffer_view_id).clone());
                self.push(jump);
            }
            proof {
                use_type_invariant(&*self);
            }
            self.current = current;
            if current < self.jumps.len() {
                Some(&self.jumps[current])
            } else {
                None
            }
        } else {
            None
        }
    }

    /// Drops every jump into buffer `buffer_id`.
    pub fn remove(&mut self, buffer_id: &BufferID)
        ensures
            final(self)@ == (without_buffer(old(self)@.0, *buffer_id), old(self)@.1),
            final(self)@.0.len() <= old(self)@.0.len(),
            forall|i: int| 0 <= i < final(self)@.0.len() ==> (#[trigger] final(self)@.0[i]).0 != *buffer_id,
    {
        proof {
            use_type_invariant(&*self);
        }
        let ghost js = self@.0;
        let mut kept: VecDeque<(BufferID, Selection)> = VecDeque::new();
        let mut i: usize = 0;
        let n = self.jumps.len();
        assert(n <= JUMP_LIST_CAPACITY);
        while i < n
            invariant
                n == self.jumps@.len(),
                n <= JUMP_LIST_CAPACITY,
                0 <= i <= n,
                js == self.jumps@.map_values(|j: (BufferID, Selection)| jump_view(j)),
                kept@.map_values(|j: (BufferID, Selection)| jump_view(j)) == without_buffer(js.take(i as int), *buffer_id),
                kept@.len() <= i,
            decreases n - i,
        {
            proof {
                assert(js.take(i + 1).drop_last() =~= js.take(i as int));
            }
            if self.jumps[i].0 != *buffer_id {
                kept.push_back((self.jumps[i].0, self.jumps[i].1.clone()));
                proof {
                    assert(kept@.map_values(|j: (BufferID, Selection)| jump_view(j)) =~= without_buffer(js.take(i + 1), *buffer_id));
                }
            }
            i = i + 1;
        }
        proof {
            assert(js.take(n as int) =~= js);
            lemma_without_buffer(js, *buffer_id);
        }
        self.jumps = kept;
    }

    /// The jumps, oldest first.
    pub fn iter(&self) -> (r: &VecDeque<(BufferID, Selection)>)
        ensures
            r@.map_values(|j: (BufferID, Selection)| jump_view(j)) == self@.0,
    {
        &self.jumps
    }
}

} // verus!
