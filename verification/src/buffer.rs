//! Buffers: a text, the selection each view holds in it, and the ids that name
//! buffers and views.

use crate::selection::{range_in, Selection};
use crate::strings::string_from_chars;
use vstd::prelude::*;

verus! {

/// Names a buffer. It is never zero.
#[derive(Clone, Copy, Debug, PartialEq, Eq, Structural)]
pub struct BufferID {
    id: usize,
}

impl BufferID {
    #[verifier::type_invariant]
    closed spec fn nonzero(self) -> bool {
        self.id != 0
    }

    /// The number that names the buffer.
    pub closed spec fn value(self) -> nat {
        self.id as nat
    }

    /// The id with number `id`, if `id` is not zero.
    pub fn new(id: usize) -> (r: Option<BufferID>)
        ensures
            id == 0 ==> r.is_none(),
            id != 0 ==> r.is_some() && r.unwrap().value() == id,
    {
        if id == 0 {
            None
        } else {
            Some(BufferID { id })
        }
    }

    /// The number that names the buffer.
    pub fn get(&self) -> (n: usize)
        ensures
            n == self.value(),
            n != 0,
    {
        proof {
            use_type_invariant(self);
        }
        self.id
    }
}

/// The decimal digits of `n`, most significant first, with no leading zero.
pub open spec fn decimal_string(n: nat) -> Seq<char>
    decreases n,
{
    if n < 10 {
        seq![(48 + n) as char]
    } else {
        decimal_string(n / 10).push((48 + n % 10) as char)
    }
}

impl BufferID {
    /// The id as text: its number in decimal.
    pub fn to_string(&self) -> (s: String)
        ensures
            s@ == decimal_string(self.value()),
    {
        decimal_text(self.id)
    }
}

/// `n` in decimal.
pub fn decimal_text(n: usize) -> (s: String)
    ensures
        s@ == decimal_string(n as nat),
{
    {
        // Collect the digits from the least significant one.
        let mut rev: Vec<char> = Vec::new();
        let mut m = n;
        proof {
            assert(rev@.reverse() =~= Seq::<char>::empty());
            assert(decimal_string(n as nat) =~= decimal_string(m as nat) + rev@.reverse());
        }
        loop
            invariant_except_break
                decimal_string(n as nat) == decimal_string(m as nat) + rev@.reverse(),
            ensures
                decimal_string(n as nat) == rev@.reverse(),
            decreases m,
        {
            let d = (m % 10) as u8;
            if m < 10 {
                let ghost old_rev = rev@;
                rev.push((48 + d) as char);
                proof {
                    assert(decimal_string(m as nat) == seq![(48 + m) as char]);
                    assert(rev@.reverse() =~= seq![(48 + m) as char] + old_rev.reverse());
                }
                break;
            }
            let ghost old_rev = rev@;
            rev.push((48 + d) as char);
            proof {
                assert(decimal_string(m as nat) == decimal_string((m / 10) as nat).push((48 + m % 10) as char));
                assert(rev@.reverse() =~= seq![(48 + m % 10) as char] + old_rev.reverse());
            }
            m = m / 10;
        }
        let mut out: Vec<char> = Vec::new();
        let mut i: usize = rev.len();
        while i > 0
            invariant
                i <= rev@.len(),
                out@ == rev@.subrange(i as int, rev@.len() as int).reverse(),
            decreases i,
        {
            i = i - 1;
            out.push(rev[i]);
            proof {
                assert(out@ =~= rev@.subrange(i as int, rev@.len() as int).reverse());
            }
        }
        proof {
            assert(rev@.subrange(0, rev@.len() as int) =~= rev@);
        }
        string_from_chars(out.as_slice())
    }
}

impl Default for BufferID {
    /// The first buffer id, number one.
    fn default() -> (r: BufferID)
        ensures
            r.value() == 1,
    {
        BufferID { id: 1 }
    }
}

/// Names a view of a buffer.
#[derive(Clone, Copy, Debug, PartialEq, Eq, Structural)]
pub struct BufferViewID(pub usize);

impl Default for BufferViewID {
    fn default() -> (r: BufferViewID)
        ensures
            r.0 == 0,
    {
        BufferViewID(0)
    }
}

/// The selection that `view` holds among `sels`: that of the first entry for it.
pub open spec fn selection_of(sels: Seq<(BufferViewID, Selection)>, view: BufferViewID) -> Option<Selection>
    decreases sels.len(),
{
    if sels.len() == 0 {
        None
    } else if sels[0].0 == view {
        Some(sels[0].1)
    } else {
        selection_of(sels.drop_first(), view)
    }
}

/// A selection fits a text of `len` chars: it is well formed and each of its
/// ranges lies in the text.
pub open spec fn selection_fits(s: Selection, len: int) -> bool {
    &&& s.wf()
    &&& forall|i: int| 0 <= i < s.ranges@.len() ==> range_in(#[trigger] s.ranges@[i], len)
}

/// A text, its tab width, the selection of each view that shows it, and the
/// revision it is at.
pub struct Buffer {
    pub id: BufferID,
    pub text: Vec<char>,
    pub tab_width: usize,
    pub selections: Vec<(BufferViewID, Selection)>,
    pub revision: usize,
}

impl Buffer {
    /// The buffer is well formed: its tab width is not zero and each selection fits its text.
    pub open spec fn wf(&self) -> bool {
        &&& self.tab_width > 0
        &&& forall|i: int|
            0 <= i < self.selections@.len() ==> selection_fits(
                #[trigger] self.selections@[i].1,
                self.text@.len() as int,
            )
    }

    /// The selection `view` holds in the buffer.
    pub open spec fn selection_spec(&self, view: BufferViewID) -> Option<Selection> {
        selection_of(self.selections@, view)
    }

    /// A buffer of `text` with the first buffer id, a tab width of four, no
    /// selections and revision zero.
    pub fn from(text: Vec<char>) -> (b: Buffer)
        ensures
            b.wf(),
            b.id.value() == 1,
            b.text@ == text@,
            b.tab_width == 4,
            b.selections@.len() == 0,
            b.revision == 0,
    {
        Buffer { id: BufferID::default(), text, tab_width: 4, selections: Vec::new(), revision: 0 }
    }

    pub fn id(&self) -> (r: BufferID)
        ensures
            r == self.id,
    {
        self.id
    }

    pub fn text(&self) -> (t: &[char])
        ensures
            t@ == self.text@,
    {
        self.text.as_slice()
    }

    pub fn tab_width(&self) -> (w: usize)
        ensures
            w == self.tab_width,
    {
        self.tab_width
    }

    pub fn get_current_revision(&self) -> (r: usize)
        ensures
            r == self.revision,
    {
        self.revision
    }

    /// The selection that `view` holds in the buffer.
    pub fn selection(&self, view: BufferViewID) -> (s: &Selection)
        requires
            self.selection_spec(view).is_some(),
        ensures
            Some(*s) == self.selection_spec(view),
    {
        let mut i: usize = 0;
        proof {
            assert(self.selections@.skip(0) =~= self.selections@);
        }
        while i < self.selections.len()
            invariant
                0 <= i <= self.selections@.len(),
                selection_of(self.selections@, view) == selection_of(self.selections@.skip(i as int), view),
                selection_of(self.selections@, view).is_some(),
            decreases self.selections.len() - i,
        {
            if self.selections[i].0 == view {
                return &self.selections[i].1;
            }
            proof {
                assert(self.selections@.skip(i as int).drop_first() =~= self.selections@.skip(i + 1));
            }
            i = i + 1;
        }
        proof {
            assert(self.selections@.skip(i as int).len() == 0);
        }
        &self.selections[0].1
    }
}

/// Where a view's selection is found among a buffer's selections, it fits the
/// buffer's text.
pub proof fn lemma_selection_fits(b: &Buffer, view: BufferViewID)
    requires
        b.wf(),
        b.selection_spec(view).is_some(),
    ensures
        selection_fits(b.selection_spec(view).unwrap(), b.text@.len() as int),
{
    lemma_selection_of_in(b.selections@, view);
    let i = choose|i: int| 0 <= i < b.selections@.len() && b.selections@[i].1 == selection_of(b.selections@, view).unwrap();
    assert(selection_fits(b.selections@[i].1, b.text@.len() as int));
}

proof fn lemma_selection_of_in(sels: Seq<(BufferViewID, Selection)>, view: BufferViewID)
    requires
        selection_of(sels, view).is_some(),
    ensures
        exists|i: int| 0 <= i < sels.len() && sels[i].1 == selection_of(sels, view).unwrap(),
    decreases sels.len(),
{
    if sels[0].0 == view {
        assert(sels[0].1 == selection_of(sels, view).unwrap());
    } else {
        lemma_selection_of_in(sels.drop_first(), view);
        let i = choose|i: int| 0 <= i < sels.drop_first().len() && sels.drop_first()[i].1 == selection_of(sels.drop_first(), view).unwrap();
        assert(sels[i + 1] == sels.drop_first()[i]);
    }
}

/// What is written out when a buffer is saved: its revision, id, path and text.
#[derive(Debug, Clone)]
pub struct DocumentSavedEvent {
    pub revision: usize,
    pub buffer_id: BufferID,
    pub path: String,
    pub text: Vec<char>,
}

} // verus!
