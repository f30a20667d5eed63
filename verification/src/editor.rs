//! Types the editor passes around: breakpoints, configuration events,
//! completions, how a buffer is opened, and why closing one failed.

use crate::buffer::{decimal_string, decimal_text, lemma_selection_fits, selection_fits, Buffer, BufferID, BufferViewID};
use crate::buffer_view::{history_after_access, without_id, BufferView};
use crate::jump::{push_spec, without_buffer};
use crate::jump_list::JumpList;
use crate::gutter::GutterComponents;
use crate::config::{mode_index, CursorKind, CursorShapeConfig, Mode, ViewConfig};
use crate::graphics::sat_sub;
use crate::position::{visual_coords_spec, Position};
use crate::movement::Movement;
use crate::selection::{cursor_spec, put_cursor_spec, range_in, Range, Selection};
use crate::text::{lemma_line_starts_basic, line_of, line_start, line_to_char};
use crate::strings::{debug_list, debug_strings, push_str, string_from_chars};
use vstd::prelude::*;

verus! {

/// A breakpoint set in a file.
#[derive(Debug, Clone, Default)]
pub struct Breakpoint {
    pub id: Option<usize>,
    pub verified: bool,
    pub message: Option<String>,
    pub line: usize,
    pub column: Option<usize>,
    pub condition: Option<String>,
    pub hit_condition: Option<String>,
    pub log_message: Option<String>,
}

/// A change of the configuration: reload it, or use the one given.
#[derive(Debug, Clone)]
pub enum ConfigEvent {
    Refresh,
    Update(Box<ViewConfig>),
}

/// A change to a text: the chars from `.0` to `.1` replaced by `.2`, if any.
pub type Change = (usize, usize, Option<String>);

/// The last completion applied: where it was triggered and what it changed.
#[derive(Debug, Clone)]
pub struct CompleteAction {
    pub trigger_offset: usize,
    pub changes: Vec<Change>,
}

/// How a buffer is shown when it is opened.
#[derive(Debug, Copy, Clone, PartialEq, Eq, Structural)]
pub enum Action {
    Load,
    Replace,
    HorizontalSplit,
    VerticalSplit,
}

/// Why a buffer could not be closed.
#[derive(Debug, Clone)]
pub enum CloseError {
    /// The buffer does not exist.
    DoesNotExist,
    /// The buffer has unsaved changes; its name.
    BufferModified(String),
    /// Saving the buffer failed; the error's message.
    SaveError(String),
}

/// The ids of `documents` other than `current`, in their order.
pub open spec fn others_spec(documents: Seq<BufferID>, current: BufferID) -> Seq<BufferID>
    decreases documents.len(),
{
    if documents.len() == 0 {
        documents
    } else {
        let rest = others_spec(documents.drop_last(), current);
        if documents.last() != current {
            rest.push(documents.last())
        } else {
            rest
        }
    }
}

/// The buffers to close for "close the others": every open buffer but the current one.
pub fn buffer_gather_others_impl(documents: &[BufferID], current: BufferID) -> (r: Vec<BufferID>)
    ensures
        r@ == others_spec(documents@, current),
{
    let mut r: Vec<BufferID> = Vec::new();
    let mut i: usize = 0;
    while i < documents.len()
        invariant
            0 <= i <= documents@.len(),
            r@ == others_spec(documents@.take(i as int), current),
        decreases documents.len() - i,
    {
        proof {
            assert(documents@.take(i + 1).drop_last() =~= documents@.take(i as int));
        }
        if documents[i] != current {
            r.push(documents[i]);
        }
        i = i + 1;
    }
    proof {
        assert(documents@.take(i as int) =~= documents@);
    }
    r
}

/// The buffers to close for "close all": every open buffer.
pub fn buffer_gather_all_impl(documents: &[BufferID]) -> (r: Vec<BufferID>)
    ensures
        r@ == documents@,
{
    let mut r: Vec<BufferID> = Vec::new();
    let mut i: usize = 0;
    while i < documents.len()
        invariant
            0 <= i <= documents@.len(),
            r@ == documents@.take(i as int),
        decreases documents.len() - i,
    {
        r.push(documents[i]);
        i = i + 1;
        proof {
            assert(r@ =~= documents@.take(i as int));
        }
    }
    proof {
        assert(documents@.take(i as int) =~= documents@);
    }
    r
}

/// An open buffer as the quit commands see it: its id, its display name and
/// whether it has unsaved changes.
#[derive(Debug, Clone)]
pub struct OpenBuffer {
    pub id: BufferID,
    pub display_name: String,
    pub modified: bool,
}

/// Buffers with unsaved changes remain: their names, and the first of them
/// to switch to where the current buffer is not among them.
#[derive(Debug, Clone)]
pub struct UnsavedBuffers {
    pub switch_to: Option<BufferID>,
    pub names: Vec<String>,
}

/// The modified buffers among `docs`, in their order.
pub open spec fn modified_spec(docs: Seq<OpenBuffer>) -> Seq<OpenBuffer>
    decreases docs.len(),
{
    if docs.len() == 0 {
        docs
    } else {
        let rest = modified_spec(docs.drop_last());
        if docs.last().modified {
            rest.push(docs.last())
        } else {
            rest
        }
    }
}

/// The error shown when unsaved buffers remain: their number, then the list
/// of their names as `{:?}` writes it.
pub open spec fn unsaved_message(names: Seq<Seq<char>>) -> Seq<char> {
    decimal_string(names.len()) + " unsaved buffer(s) remaining: "@ + debug_list(names)
}

impl UnsavedBuffers {
    /// The error text: `n unsaved buffer(s) remaining: [..]`.
    pub fn message(&self) -> (m: String)
        ensures
            m@ == unsaved_message(self.names@.map_values(|n: String| n@)),
    {
        let mut v: Vec<char> = Vec::new();
        push_str(&mut v, decimal_text(self.names.len()).as_str());
        push_str(&mut v, " unsaved buffer(s) remaining: ");
        push_str(&mut v, debug_strings(&self.names).as_str());
        string_from_chars(v.as_slice())
    }
}

/// Whether closing the editor may go on: it may not while some buffer has
/// unsaved changes. Then the names of those buffers are given, with the
/// first of them to switch to where the current buffer is not among them.
pub fn buffers_remaining_impl(docs: &[OpenBuffer], current: BufferID) -> (r: Result<(), UnsavedBuffers>)
    ensures
        ({
            let m = modified_spec(docs@);
            if m.len() == 0 {
                r is Ok
            } else {
                r matches Err(u) && u.names@.len() == m.len() && (forall|i: int|
                    0 <= i < m.len() ==> #[trigger] u.names@[i]@ == m[i].display_name@) && (if exists|i: int|
                    0 <= i < m.len() && #[trigger] m[i].id == current {
                    u.switch_to.is_none()
                } else {
                    u.switch_to == Some(m[0].id)
                })
            }
        }),
{
    let mut ids: Vec<BufferID> = Vec::new();
    let mut names: Vec<String> = Vec::new();
    let mut i: usize = 0;
    while i < docs.len()
        invariant
            0 <= i <= docs@.len(),
            ids@.len() == names@.len(),
            ids@.len() == modified_spec(docs@.take(i as int)).len(),
            forall|j: int| 0 <= j < ids@.len() ==> #[trigger] ids@[j] == modified_spec(docs@.take(i as int))[j].id,
            forall|j: int| 0 <= j < names@.len() ==> #[trigger] names@[j]@ == modified_spec(docs@.take(i as int))[j].display_name@,
        decreases docs.len() - i,
    {
        proof {
            assert(docs@.take(i + 1).drop_last() =~= docs@.take(i as int));
        }
        if docs[i].modified {
            ids.push(docs[i].id);
            names.push(docs[i].display_name.clone());
        }
        i = i + 1;
    }
    proof {
        assert(docs@.take(i as int) =~= docs@);
    }
    if ids.len() == 0 {
        return Ok(());
    }
    let ghost m = modified_spec(docs@);
    let mut k: usize = 0;
    let mut found = false;
    while k < ids.len()
        invariant
            0 <= k <= ids@.len(),
            ids@.len() == m.len(),
            forall|j: int| 0 <= j < ids@.len() ==> #[trigger] ids@[j] == m[j].id,
            found == exists|j: int| 0 <= j < k && #[trigger] m[j].id == current,
        decreases ids.len() - k,
    {
        if ids[k] == current {
            found = true;
        }
        k = k + 1;
    }
    let switch_to = if found { None } else { Some(ids[0]) };
    Err(UnsavedBuffers { switch_to, names })
}

/// Where the terminal cursor stands for `view` showing `buffer`: the screen
/// cell of the primary cursor (its place in the text area moved by the text
/// area's corner), in the kind that `cursor_shape` gives `mode`; nowhere, in
/// the default kind, when the cursor is scrolled out of the view.
pub fn cursor(view: &BufferView, buffer: &Buffer, cursor_shape: &CursorShapeConfig, mode: Mode) -> (r: (Option<Position>, CursorKind))
    requires
        view.can_scroll(buffer),
    ensures
        ({
            let (line, col) = view.cursor_coords(buffer);
            let inner = view.inner_area_spec(buffer);
            if line < view.offset.row || line > view.last_line_spec(buffer) {
                r == (None::<Position>, CursorKind::Block)
            } else {
                r == (
                    Some(Position {
                        row: (line - view.offset.row + inner.y) as usize,
                        col: (sat_sub(col, view.offset.col as int) + inner.x) as usize,
                    }),
                    cursor_shape.0@[mode_index(mode)],
                )
            }
        }),
{
    proof {
        lemma_selection_fits(buffer, view.id);
    }
    let text = buffer.text();
    let sel = buffer.selection(view.id);
    let primary = sel.primary();
    let pos = primary.cursor(text);
    proof {
        lemma_line_starts_basic(text@.take(pos as int));
    }
    match view.screen_coords_at_pos(buffer, text, pos) {
        Some(p) => {
            let inner = view.inner_area(buffer);
            let row = p.row + inner.y as usize;
            let col = p.col + inner.x as usize;
            (Some(Position { row, col }), cursor_shape.from_mode(mode))
        },
        None => (None, CursorKind::default()),
    }
}

/// The selection of view `view` in `buffer` with each cursor moved to the
/// start of its line (each range extended there with `Extend`).
pub fn goto_line_start_impl(buffer: &Buffer, view: BufferViewID, movement: Movement) -> (s: Selection)
    requires
        buffer.wf(),
        buffer.selection_spec(view).is_some(),
    ensures
        ({
            let old = buffer.selection_spec(view).unwrap();
            &&& s.primary_index == old.primary_index
            &&& s.ranges@.len() == old.ranges@.len()
            &&& forall|i: int|
                0 <= i < s.ranges@.len() ==> {
                    let r = old.ranges@[i];
                    let pos = line_start(buffer.text@, line_of(buffer.text@, cursor_spec(buffer.text@, r)));
                    (#[trigger] s.ranges@[i].anchor as int, s.ranges@[i].head as int) == put_cursor_spec(
                        buffer.text@,
                        r,
                        pos,
                        movement == Movement::Extend,
                    )
                }
        }),
{
    proof {
        lemma_selection_fits(buffer, view);
    }
    let text = buffer.text();
    let sel = buffer.selection(view);
    let mut ranges: Vec<Range> = Vec::new();
    let mut i: usize = 0;
    while i < sel.ranges.len()
        invariant
            0 <= i <= sel.ranges@.len(),
            selection_fits(*sel, text@.len() as int),
            text@ == buffer.text@,
            ranges@.len() == i,
            forall|j: int|
                0 <= j < i ==> {
                    let r = sel.ranges@[j];
                    let pos = line_start(text@, line_of(text@, cursor_spec(text@, r)));
                    (#[trigger] ranges@[j].anchor as int, ranges@[j].head as int) == put_cursor_spec(
                        text@,
                        r,
                        pos,
                        movement == Movement::Extend,
                    )
                },
        decreases sel.ranges.len() - i,
    {
        let range = sel.ranges[i];
        assert(range_in(range, text@.len() as int));
        let line = range.cursor_line(text);
        let pos = line_to_char(text, line);
        ranges.push(range.put_cursor(text, pos, movement == Movement::Extend));
        i = i + 1;
    }
    Selection { ranges, primary_index: sel.primary_index }
}

/// What `:write-all` reads of an open buffer: its id, whether it has unsaved
/// changes, whether it has a file path, the views that hold a selection in
/// it (in the order the buffer lists them), and whether a formatter serves it.
#[derive(Debug, Clone)]
pub struct WriteCandidate {
    pub id: BufferID,
    pub modified: bool,
    pub has_path: bool,
    pub views: Vec<BufferViewID>,
    pub has_formatter: bool,
}

/// What `:write-all` does with one buffer: format it in view `view` (and
/// save after formatting) or save it at once; `init_view` where the buffer
/// has no view yet and `view` must first be set up in it.
#[derive(Debug, Clone, Copy, PartialEq, Eq, Structural)]
pub struct WriteStep {
    pub id: BufferID,
    pub view: BufferViewID,
    pub init_view: bool,
    pub format: bool,
}

/// What `:write-all` does: the buffers to format or save, in order, how
/// many "cannot write a buffer without a filename" errors there are, and
/// whether the command fails with them.
#[derive(Debug, Clone)]
pub struct WriteAllPlan {
    pub steps: Vec<WriteStep>,
    pub scratch_errors: usize,
    pub fails: bool,
}

/// The step for a modified buffer with a path: its view is the current view
/// where the buffer holds it, else the first view it holds, else the current
/// view, set up in it; it is formatted where auto-format is on and a
/// formatter serves it.
pub open spec fn write_step_spec(c: WriteCandidate, current: BufferViewID, auto_format: bool) -> WriteStep {
    let vs = c.views@;
    WriteStep {
        id: c.id,
        view: if vs.contains(current) { current } else if vs.len() > 0 { vs[0] } else { current },
        init_view: vs.len() == 0,
        format: auto_format && c.has_formatter,
    }
}

/// The steps for the buffers `cs`: one for each modified buffer with a path.
pub open spec fn write_steps_spec(cs: Seq<WriteCandidate>, current: BufferViewID, auto_format: bool) -> Seq<WriteStep>
    decreases cs.len(),
{
    if cs.len() == 0 {
        Seq::empty()
    } else {
        let rest = write_steps_spec(cs.drop_last(), current, auto_format);
        let c = cs.last();
        if c.modified && c.has_path {
            rest.push(write_step_spec(c, current, auto_format))
        } else {
            rest
        }
    }
}

/// The modified buffers of `cs` without a path.
pub open spec fn scratch_count(cs: Seq<WriteCandidate>) -> nat
    decreases cs.len(),
{
    if cs.len() == 0 {
        0
    } else {
        scratch_count(cs.drop_last()) + if cs.last().modified && !cs.last().has_path { 1nat } else { 0nat }
    }
}

proof fn lemma_scratch_count_le(cs: Seq<WriteCandidate>)
    ensures
        scratch_count(cs) <= cs.len(),
    decreases cs.len(),
{
    if cs.len() > 0 {
        lemma_scratch_count_le(cs.drop_last());
    }
}

/// What `:write-all` does with the open buffers `docs`, the current view
/// `current` and its settings: the steps of `write_steps_spec`; an error for
/// each modified buffer without a path where `write_scratch` asks for them;
/// failure where there are errors and `force` is off.
pub fn write_all_plan(
    docs: &[WriteCandidate],
    current: BufferViewID,
    auto_format: bool,
    write_scratch: bool,
    force: bool,
) -> (r: WriteAllPlan)
    ensures
        r.steps@ == write_steps_spec(docs@, current, auto_format),
        r.scratch_errors == (if write_scratch { scratch_count(docs@) } else { 0 }),
        r.fails == (r.scratch_errors > 0 && !force),
{
    let mut steps: Vec<WriteStep> = Vec::new();
    let mut errors: usize = 0;
    let mut i: usize = 0;
    proof {
        assert(docs@.take(0) =~= Seq::<WriteCandidate>::empty());
    }
    while i < docs.len()
        invariant
            0 <= i <= docs@.len(),
            steps@ == write_steps_spec(docs@.take(i as int), current, auto_format),
            errors == (if write_scratch { scratch_count(docs@.take(i as int)) } else { 0 }),
        decreases docs.len() - i,
    {
        let c = &docs[i];
        proof {
            assert(docs@.take(i + 1).drop_last() =~= docs@.take(i as int));
            assert(docs@.take(i + 1).last() == *c);
            lemma_scratch_count_le(docs@.take(i as int));
        }
        if c.modified {
            if !c.has_path {
                if write_scratch {
                    errors = errors + 1;
                }
            } else {
                let mut k: usize = 0;
                while k < c.views.len() && c.views[k] != current
                    invariant
                        0 <= k <= c.views@.len(),
                        forall|j: int| 0 <= j < k ==> c.views@[j] != current,
                    decreases c.views.len() - k,
                {
                    k = k + 1;
                }
                let view = if k < c.views.len() {
                    current
                } else if c.views.len() > 0 {
                    c.views[0]
                } else {
                    current
                };
                proof {
                    if k < c.views@.len() {
                        assert(c.views@.contains(current));
                    } else {
                        assert(!c.views@.contains(current));
                    }
                }
                steps.push(WriteStep {
                    id: c.id,
                    view,
                    init_view: c.views.len() == 0,
                    format: auto_format && c.has_formatter,
                });
            }
        }
        i = i + 1;
    }
    proof {
        assert(docs@.take(i as int) =~= docs@);
    }
    WriteAllPlan { steps, scratch_errors: errors, fails: errors > 0 && !force }
}

/// What closing a buffer does to a view that shows it.
#[derive(Debug, Clone, Copy, PartialEq, Eq, Structural)]
pub enum ViewFate {
    /// The view is closed: it showed no other buffer before.
    Close,
    /// The view shows this buffer again: the last other one it showed.
    Show(BufferID),
}

/// What closing a buffer does: the fate of each view that shows it, in the
/// order of the views, and, where no view is left, the buffer a new view
/// shows (`Some(None)`: a new, empty buffer).
#[derive(Debug, Clone)]
pub struct ClosePlan {
    pub views: Vec<(BufferViewID, ViewFate)>,
    pub fallback: Option<Option<BufferID>>,
}

/// The fate of view `v` when buffer `doc` closes, if `v` shows it: it goes
/// back to the last other buffer in its history, or closes.
pub open spec fn view_fate(v: BufferView, doc: BufferID) -> Option<ViewFate> {
    if v.buffer_id == doc {
        let h = without_id(v.buffer_access_history@, doc);
        if h.len() > 0 {
            Some(ViewFate::Show(h.last()))
        } else {
            Some(ViewFate::Close)
        }
    } else {
        None
    }
}

/// The fates of the views of `vs` that show `doc`, in order.
pub open spec fn view_fates(vs: Seq<BufferView>, doc: BufferID) -> Seq<(BufferViewID, ViewFate)>
    decreases vs.len(),
{
    if vs.len() == 0 {
        Seq::empty()
    } else {
        let rest = view_fates(vs.drop_last(), doc);
        match view_fate(vs.last(), doc) {
            Some(f) => rest.push((vs.last().id, f)),
            None => rest,
        }
    }
}

/// Whether closing `doc` closes every view of `vs`.
pub open spec fn no_view_left(vs: Seq<BufferView>, doc: BufferID) -> bool {
    forall|i: int| 0 <= i < vs.len() ==> view_fate(#[trigger] vs[i], doc) == Some(ViewFate::Close)
}

/// Index of the first buffer of `docs` with id `id` (their number where there is none).
pub open spec fn doc_index(docs: Seq<OpenBuffer>, id: BufferID) -> int
    decreases docs.len(),
{
    if docs.len() == 0 {
        0
    } else if docs[0].id == id {
        0
    } else {
        1 + doc_index(docs.drop_first(), id)
    }
}

/// Whether `f` is the buffer with the smallest number among `docs` other than `doc`.
pub open spec fn is_fallback(docs: Seq<OpenBuffer>, doc: BufferID, f: BufferID) -> bool {
    &&& f != doc
    &&& exists|i: int| 0 <= i < docs.len() && #[trigger] docs[i].id == f
    &&& forall|i: int| 0 <= i < docs.len() && docs[i].id != doc ==> f.value() <= (#[trigger] docs[i].id).value()
}

proof fn lemma_doc_index(docs: Seq<OpenBuffer>, id: BufferID)
    ensures
        0 <= doc_index(docs, id) <= docs.len(),
        doc_index(docs, id) < docs.len() ==> docs[doc_index(docs, id)].id == id,
        forall|j: int| 0 <= j < doc_index(docs, id) ==> (#[trigger] docs[j]).id != id,
    decreases docs.len(),
{
    if docs.len() > 0 && docs[0].id != id {
        lemma_doc_index(docs.drop_first(), id);
        assert forall|j: int| 0 <= j < doc_index(docs, id) implies (#[trigger] docs[j]).id != id by {
            if j > 0 {
                assert(docs[j] == docs.drop_first()[j - 1]);
            }
        }
    }
}

/// The last buffer of `h` other than `doc`: that of `without_id(h, doc)`.
fn last_other(h: &Vec<BufferID>, doc: BufferID) -> (r: Option<BufferID>)
    ensures
        ({
            let w = without_id(h@, doc);
            if w.len() > 0 { r == Some(w.last()) } else { r is None }
        }),
{
    let mut k = h.len();
    proof {
        assert(h@.take(k as int) =~= h@);
    }
    while k > 0 && h[k - 1] == doc
        invariant
            k <= h@.len(),
            without_id(h@, doc) == without_id(h@.take(k as int), doc),
        decreases k,
    {
        proof {
            assert(h@.take(k as int).drop_last() =~= h@.take(k - 1));
        }
        k = k - 1;
    }
    if k == 0 {
        proof {
            assert(h@.take(0) =~= Seq::<BufferID>::empty());
        }
        None
    } else {
        proof {
            assert(h@.take(k as int).drop_last() =~= h@.take(k - 1));
            assert(h@.take(k as int).last() == h@[k - 1]);
        }
        Some(h[k - 1])
    }
}

/// What closing buffer `doc` does, among the open buffers `docs` and the
/// views `views`: `DoesNotExist` where no buffer has the id; `BufferModified`
/// with its name where it has unsaved changes and `force` is off; else each
/// view that shows it goes back to the last other buffer it showed, or
/// closes, and where no view is left a new view shows the open buffer with
/// the smallest number, or a new empty buffer where none is left.
pub fn close_plan(views: &[BufferView], docs: &[OpenBuffer], doc: BufferID, force: bool) -> (r: Result<ClosePlan, CloseError>)
    ensures
        ({
            let i = doc_index(docs@, doc);
            if i >= docs@.len() {
                r matches Err(e) && e is DoesNotExist
            } else if !force && docs@[i].modified {
                r matches Err(e) && e matches CloseError::BufferModified(n) && n@ == docs@[i].display_name@
            } else {
                r matches Ok(p) && {
                    &&& p.views@ == view_fates(views@, doc)
                    &&& (p.fallback is None <==> !no_view_left(views@, doc))
                    &&& (p.fallback matches Some(Some(f)) ==> is_fallback(docs@, doc, f))
                    &&& (p.fallback == Some(None::<BufferID>) ==> forall|j: int|
                        0 <= j < docs@.len() ==> (#[trigger] docs@[j]).id == doc)
                }
            }
        }),
{
    proof {
        lemma_doc_index(docs@, doc);
    }
    let mut i: usize = 0;
    while i < docs.len() && docs[i].id != doc
        invariant
            0 <= i <= docs@.len(),
            forall|j: int| 0 <= j < i ==> (#[trigger] docs@[j]).id != doc,
            0 <= doc_index(docs@, doc) <= docs@.len(),
            doc_index(docs@, doc) < docs@.len() ==> docs@[doc_index(docs@, doc)].id == doc,
            forall|j: int| 0 <= j < doc_index(docs@, doc) ==> (#[trigger] docs@[j]).id != doc,
        decreases docs.len() - i,
    {
        i = i + 1;
    }
    if i == docs.len() {
        return Err(CloseError::DoesNotExist);
    }
    if !force && docs[i].modified {
        return Err(CloseError::BufferModified(docs[i].display_name.clone()));
    }
    let mut fates: Vec<(BufferViewID, ViewFate)> = Vec::new();
    let mut left = false;
    let mut k: usize = 0;
    proof {
        assert(views@.take(0) =~= Seq::<BufferView>::empty());
    }
    while k < views.len()
        invariant
            0 <= k <= views@.len(),
            fates@ == view_fates(views@.take(k as int), doc),
            left == !no_view_left(views@.take(k as int), doc),
        decreases views.len() - k,
    {
        let v = &views[k];
        proof {
            assert(views@.take(k + 1).drop_last() =~= views@.take(k as int));
            assert(views@.take(k + 1).last() == *v);
        }
        if v.buffer_id == doc {
            match last_other(&v.buffer_access_history, doc) {
                Some(prev) => {
                    fates.push((v.id, ViewFate::Show(prev)));
                    left = true;
                },
                None => {
                    fates.push((v.id, ViewFate::Close));
                },
            }
        } else {
            left = true;
        }
        k = k + 1;
        proof {
            let t = views@.take(k as int);
            if left {
                if !no_view_left(views@.take(k - 1), doc) {
                    let j = choose|j: int| 0 <= j < k - 1 && view_fate(#[trigger] views@.take(k - 1)[j], doc) != Some(ViewFate::Close);
                    assert(t[j] == views@.take(k - 1)[j]);
                } else {
                    assert(view_fate(t[k - 1], doc) != Some(ViewFate::Close));
                }
            } else {
                assert forall|j: int| 0 <= j < t.len() implies view_fate(#[trigger] t[j], doc) == Some(ViewFate::Close) by {
                    if j < k - 1 {
                        assert(t[j] == views@.take(k - 1)[j]);
                    }
                }
            }
        }
    }
    proof {
        assert(views@.take(k as int) =~= views@);
    }
    if left {
        return Ok(ClosePlan { views: fates, fallback: None });
    }
    // No view is left: the open buffer with the smallest number but `doc`.
    let mut best: Option<BufferID> = None;
    let mut m: usize = 0;
    while m < docs.len()
        invariant
            0 <= m <= docs@.len(),
            best matches Some(b) ==> is_fallback(docs@.take(m as int), doc, b),
            best is None ==> forall|j: int| 0 <= j < m ==> (#[trigger] docs@[j]).id == doc,
        decreases docs.len() - m,
    {
        let d = docs[m].id;
        let ghost tm = docs@.take(m as int);
        let ghost tm1 = docs@.take(m + 1);
        let ghost old_best = best;
        if d != doc {
            let better = match best {
                Some(b) => d.get() < b.get(),
                None => true,
            };
            if better {
                best = Some(d);
            }
        }
        m = m + 1;
        proof {
            assert forall|j: int| 0 <= j < m - 1 implies tm1[j] == tm[j] by {}
            assert(tm1[m - 1] == docs@[m - 1]);
            if best is Some {
                let b = best->0;
                assert(tm1[m - 1].id == d);
                if old_best is Some {
                    let ob = old_best->0;
                    assert(is_fallback(tm, doc, ob));
                }
                assert forall|j: int| 0 <= j < tm1.len() && tm1[j].id != doc implies b.value() <= (#[trigger] tm1[j].id).value() by {
                    if j < m - 1 {
                        assert(tm1[j] == tm[j]);
                    }
                }
                if b == d {
                    assert(tm1[m - 1].id == b);
                } else {
                    assert(old_best == Some(b));
                    let w = choose|w: int| 0 <= w < tm.len() && #[trigger] tm[w].id == b;
                    assert(tm1[w].id == b);
                }
            }
        }
    }
    proof {
        assert(docs@.take(m as int) =~= docs@);
    }
    Ok(ClosePlan { views: fates, fallback: Some(best) })
}

/// What switching reads of the buffer the focused view shows: its id, whether
/// it has unsaved changes, whether it has a file path, and whether it was
/// modified since it was last switched to.
#[derive(Debug, Clone, Copy)]
pub struct CurrentBuffer {
    pub id: BufferID,
    pub modified: bool,
    pub has_path: bool,
    pub modified_since_accessed: bool,
}

/// Whether switching the focused view from `current` to `id` drops
/// `current` as an empty scratch buffer: it is unchanged, has no path, is not
/// the buffer switched to, and no other view (of `others`) shows it.
pub open spec fn drops_scratch(others: Seq<BufferView>, current: CurrentBuffer, id: BufferID) -> bool {
    &&& !current.modified
    &&& !current.has_path
    &&& id != current.id
    &&& forall|i: int| 0 <= i < others.len() ==> (#[trigger] others[i]).buffer_id != current.id
}

/// The pair of last modified buffers after leaving `shown`, modified since it
/// was switched to where `modified`: `shown` goes in front unless it is there.
pub open spec fn last_modified_after(pair: Seq<Option<BufferID>>, shown: BufferID, modified: bool) -> Seq<Option<BufferID>> {
    if modified && pair[0] != Some(shown) {
        seq![Some(shown), pair[0]]
    } else {
        pair
    }
}

/// Switches the focused view `view`, which shows `current` with `selection`,
/// to buffer `id` in place (`others` are the other views). Where `current`
/// is an empty scratch buffer (see `drops_scratch`) it is dropped: the view
/// drops it from its history and its id is returned, so that it is closed
/// and forgotten by the other views and the editor's jump list
/// (`remove_buffer_from_histories`). Else the view records a jump to where it stood and,
/// when it changes buffer, puts `current` last in its history and in front
/// of its last modified buffers where `current` was modified since it was
/// switched to. Either way the view then shows `id` from its first line and
/// column.
pub fn switch_replace(
    view: &mut BufferView,
    others: &[BufferView],
    current: &CurrentBuffer,
    selection: Selection,
    id: BufferID,
) -> (removed: Option<BufferID>)
    requires
        old(view).buffer_id == current.id,
    ensures
        final(view).id == old(view).id,
        final(view).area == old(view).area,
        final(view).buffer_id == id,
        final(view).offset == (Position { row: 0, col: 0 }),
        final(view).object_selections@ == old(view).object_selections@,
        final(view).gutters_spec() == old(view).gutters_spec(),
        drops_scratch(others@, *current, id) ==> {
            &&& removed == Some(current.id)
            &&& final(view).jumps@ == old(view).jumps@
            &&& final(view).buffer_access_history@ == without_id(old(view).buffer_access_history@, current.id)
            &&& final(view).last_modified_buffers@ == old(view).last_modified_buffers@
        },
        !drops_scratch(others@, *current, id) ==> {
            &&& removed is None
            &&& final(view).jumps@ == push_spec(old(view).jumps@.0, old(view).jumps@.1, (current.id, selection@))
            &&& final(view).buffer_access_history@ == (if current.id != id {
                history_after_access(old(view).buffer_access_history@, current.id)
            } else {
                old(view).buffer_access_history@
            })
            &&& final(view).last_modified_buffers@ == (if current.id != id {
                last_modified_after(old(view).last_modified_buffers@, current.id, current.modified_since_accessed)
            } else {
                old(view).last_modified_buffers@
            })
        },
{
    let mut shown_elsewhere = false;
    let mut i: usize = 0;
    while i < others.len()
        invariant
            0 <= i <= others@.len(),
            shown_elsewhere == exists|j: int| 0 <= j < i && (#[trigger] others@[j]).buffer_id == current.id,
        decreases others.len() - i,
    {
        if others[i].buffer_id == current.id {
            shown_elsewhere = true;
        }
        i = i + 1;
    }
    let drop = !current.modified && !current.has_path && id != current.id && !shown_elsewhere;
    let removed = if drop {
        view.forget_in_history(&current.id);
        Some(current.id)
    } else {
        view.jumps.push((current.id, selection));
        if current.id != id {
            let shown = view.buffer_id;
            view.add_to_history(shown);
            if current.modified_since_accessed && view.last_modified_buffers[0] != Some(shown) {
                let first = view.last_modified_buffers[0];
                view.last_modified_buffers = [Some(shown), first];
                proof {
                    assert(view.last_modified_buffers@ =~= seq![Some(shown), first]);
                }
            }
        }
        None
    };
    view.buffer_id = id;
    view.offset = Position { row: 0, col: 0 };
    removed
}

/// Forgets buffer `buffer_id` in the editor's jump list and in the history
/// of view `view`.
pub fn remove_buffer_from_histories(jumps: &mut JumpList, view: &mut BufferView, buffer_id: &BufferID)
    ensures
        final(jumps)@ == (without_buffer(old(jumps)@.0, *buffer_id), old(jumps)@.1),
        final(view).buffer_access_history@ == without_id(old(view).buffer_access_history@, *buffer_id),
        !final(view).buffer_access_history@.contains(*buffer_id),
        final(view).jumps@ == old(view).jumps@,
        final(view).id == old(view).id,
        final(view).buffer_id == old(view).buffer_id,
        final(view).offset == old(view).offset,
{
    jumps.remove(buffer_id);
    view.forget_in_history(buffer_id);
}

/// Closes buffer `doc` (see `close_plan`): with `DoesNotExist` or
/// `BufferModified` nothing changes. Else every view and the editor's jump
/// list forget the buffer; each view that showed it shows the last other
/// buffer of its history, which it takes out of it, from its first line and
/// column, or is closed where there is none; the buffer leaves the list of
/// open buffers; and where no view is left, a new view `new_view` with
/// `gutters` shows the open buffer with the smallest number, or a new empty
/// buffer `new_doc` where none is left.
pub fn close_document(
    views: &mut Vec<BufferView>,
    docs: &mut Vec<OpenBuffer>,
    jumps: &mut JumpList,
    doc: BufferID,
    force: bool,
    new_doc: BufferID,
    new_view: BufferViewID,
    gutters: Vec<GutterComponents>,
) -> (r: Result<(), CloseError>)
    requires
        new_doc != doc,
    ensures
        ({
            let i = doc_index(old(docs)@, doc);
            if i >= old(docs)@.len() || (!force && old(docs)@[i].modified) {
                &&& r is Err
                &&& (i >= old(docs)@.len() ==> (r matches Err(e) && e is DoesNotExist))
                &&& final(views)@ == old(views)@
                &&& final(docs)@ == old(docs)@
                &&& final(jumps)@ == old(jumps)@
            } else {
                &&& r is Ok
                &&& final(views)@.len() >= 1
                &&& forall|j: int| 0 <= j < final(views)@.len() ==> {
                    &&& (#[trigger] final(views)@[j]).buffer_id != doc
                    &&& !final(views)@[j].buffer_access_history@.contains(doc)
                }
                &&& forall|j: int| 0 <= j < final(docs)@.len() ==> (#[trigger] final(docs)@[j]).id != doc
                &&& final(jumps)@ == (without_buffer(old(jumps)@.0, doc), old(jumps)@.1)
                &&& forall|j: int| 0 <= j < final(jumps)@.0.len() ==> (#[trigger] final(jumps)@.0[j]).0 != doc
            }
        }),
{
    proof {
        lemma_doc_index(docs@, doc);
    }
    match close_plan(views.as_slice(), docs.as_slice(), doc, force) {
        Err(e) => {
            return Err(e);
        },
        Ok(_) => {},
    }
    let ghost i0 = doc_index(docs@, doc);
    assert(i0 < docs@.len() && !(!force && docs@[i0].modified));
    jumps.remove(&doc);
    // The views, each forgetting the buffer; those that showed it go back
    // or close.
    let mut old_views: Vec<BufferView> = Vec::new();
    std::mem::swap(&mut old_views, views);
    while old_views.len() > 0
        invariant
            forall|j: int| 0 <= j < views@.len() ==> {
                &&& (#[trigger] views@[j]).buffer_id != doc
                &&& !views@[j].buffer_access_history@.contains(doc)
            },
        decreases old_views.len(),
    {
        let mut v = old_views.remove(0);
        v.forget_in_history(&doc);
        if v.buffer_id == doc {
            let ghost h = v.buffer_access_history@;
            match v.buffer_access_history.pop() {
                Some(prev) => {
                    proof {
                        assert(h.last() == prev);
                        assert(h.contains(prev));
                        assert(v.buffer_access_history@ =~= h.drop_last());
                        if v.buffer_access_history@.contains(doc) {
                            let k = choose|k: int| 0 <= k < v.buffer_access_history@.len() && v.buffer_access_history@[k] == doc;
                            assert(h[k] == doc);
                        }
                    }
                    v.buffer_id = prev;
                    v.offset = Position { row: 0, col: 0 };
                    views.push(v);
                },
                None => {},
            }
        } else {
            views.push(v);
        }
    }
    // The buffer leaves the open buffers.
    let mut old_docs: Vec<OpenBuffer> = Vec::new();
    std::mem::swap(&mut old_docs, docs);
    let mut best: Option<BufferID> = None;
    while old_docs.len() > 0
        invariant
            forall|j: int| 0 <= j < docs@.len() ==> (#[trigger] docs@[j]).id != doc,
            best matches Some(b) ==> b != doc,
        decreases old_docs.len(),
    {
        let d = old_docs.remove(0);
        if d.id != doc {
            let better = match best {
                Some(b) => d.id.get() < b.get(),
                None => true,
            };
            if better {
                best = Some(d.id);
            }
            docs.push(d);
        }
    }
    if views.len() == 0 {
        let shown = match best {
            Some(b) => b,
            None => {
                docs.push(OpenBuffer { id: new_doc, display_name: String::from_str("[scratch]"), modified: false });
                new_doc
            },
        };
        let mut v = BufferView::new(shown, gutters);
        v.id = new_view;
        proof {
            assert(v.buffer_access_history@.len() == 0);
        }
        views.push(v);
    }
    Ok(())
}

/// What switching to a buffer did.
#[derive(Debug, Clone, Copy, PartialEq, Eq, Structural)]
pub enum SwitchOutcome {
    /// No open buffer has the id: nothing changed.
    Missing,
    /// The focused view now shows the buffer; the scratch buffer dropped, if any.
    Replaced(Option<BufferID>),
    /// Nothing to do.
    Loaded,
    /// A new split is to show the buffer: a copy of the focused view where it
    /// already shows it (`true`), else a new view.
    Split(bool),
}

/// Switches to buffer `id` with `action` (see `switch_replace`): nothing
/// where no open buffer of `docs` has the id; in place for `Replace`;
/// nothing for `Load`; for a split, whether the new view copies the focused
/// one (it does where that view shows `id`).
pub fn switch(
    view: &mut BufferView,
    others: &[BufferView],
    docs: &[OpenBuffer],
    current: &CurrentBuffer,
    selection: Selection,
    id: BufferID,
    action: Action,
) -> (r: SwitchOutcome)
    requires
        old(view).buffer_id == current.id,
    ensures
        doc_index(docs@, id) >= docs@.len() ==> r == SwitchOutcome::Missing && *final(view) == *old(view),
        doc_index(docs@, id) < docs@.len() ==> match action {
            Action::Replace => r matches SwitchOutcome::Replaced(removed) && final(view).buffer_id == id
                && removed == (if drops_scratch(others@, *current, id) { Some(current.id) } else { None }),
            Action::Load => r == SwitchOutcome::Loaded && *final(view) == *old(view),
            _ => r == SwitchOutcome::Split(old(view).buffer_id == id) && *final(view) == *old(view),
        },
{
    proof {
        lemma_doc_index(docs@, id);
    }
    let mut i: usize = 0;
    while i < docs.len() && docs[i].id != id
        invariant
            0 <= i <= docs@.len(),
            forall|j: int| 0 <= j < i ==> (#[trigger] docs@[j]).id != id,
            0 <= doc_index(docs@, id) <= docs@.len(),
            doc_index(docs@, id) < docs@.len() ==> docs@[doc_index(docs@, id)].id == id,
            forall|j: int| 0 <= j < doc_index(docs@, id) ==> (#[trigger] docs@[j]).id != id,
        decreases docs.len() - i,
    {
        i = i + 1;
    }
    if i == docs.len() {
        return SwitchOutcome::Missing;
    }
    match action {
        Action::Replace => SwitchOutcome::Replaced(switch_replace(view, others, current, selection, id)),
        Action::Load => SwitchOutcome::Loaded,
        _ => SwitchOutcome::Split(view.buffer_id == id),
    }
}

} // verus!
