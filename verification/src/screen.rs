//! The screen.
use vstd::prelude::*;
use crate::canvas::{blank_line, law_apply_keeps_wf, lemma_print_char_wf, Canvas};
use crate::cell::{
    blank, cells_view, clone_link, AttributeChange, Blink, Cell, CellAttributes, CellView,
    Intensity, Underline,
};
use crate::change::{changes_view, compute_position_change, Change, ChangeView, Position};
use crate::color::ColorAttribute;
use crate::diff::{law_region_patch_reproduces, patch, region_patch, whole_at, Placed, Region};
use crate::effects::{is_plain, is_plain_space};
use crate::laws::{
    law_history_kept_by_changes, law_history_kept_by_flush, law_history_restarted_by_resize,
    law_history_starts,
};
use crate::line::Line;
use crate::paint::{
    active_below, append_text, draw_line, join, lemma_draw_line_joins, move_to,
    move_to_next_line, paint_lines, repaint,
};
use std::borrow::Cow;

verus! {

/// The number of a change in the stream of all changes made to a screen.
pub type SequenceNo = usize;

/// What a screen holds: the display that it models, and the changes that led
/// to it, as far as they were not folded away.
#[verifier::ext_equal]
pub struct ScreenView {
    pub canvas: Canvas,
    /// The number of changes made so far, where a change of size counts as one
    /// if it folds changes away.
    pub seqno: int,
    /// The latest of those changes.
    pub changes: Seq<ChangeView>,
}

impl ScreenView {
    /// What holds of every screen.  The known changes lead to what it holds.
    pub open spec fn wf(self) -> bool {
        &&& self.canvas.wf()
        &&& self.changes.len() <= self.seqno <= usize::MAX
        &&& exists|base: Canvas| self.led_to_from(base)
    }

    /// Whether the known changes, made to the display `base`, lead to what the
    /// screen holds now.
    pub open spec fn led_to_from(self, base: Canvas) -> bool {
        &&& base.wf()
        &&& base.same_size(self.canvas)
        &&& base.accepts_all(self.changes)
        &&& base.apply_all(self.changes) == self.canvas
    }

    /// The screen after changes were made to it.
    pub open spec fn added(self, changes: Seq<ChangeView>) -> ScreenView {
        ScreenView {
            canvas: self.canvas.apply_all(changes),
            seqno: self.seqno + changes.len(),
            changes: self.changes + changes,
        }
    }

    /// What `add_changes` returns for `n` changes: the number of the last of
    /// them, where a screen without any changes counts as one that had one.
    pub open spec fn last_seq(self, n: int) -> int {
        if self.seqno == 0 {
            n
        } else {
            self.seqno - 1 + n
        }
    }

    /// The number of the oldest change that is still known.
    pub open spec fn first(self) -> int {
        self.seqno - self.changes.len()
    }

    /// Whether a display that was brought up to date at `seq` has to be painted
    /// from scratch: when there is no such point, when changes made since have
    /// been folded away, or when repainting takes fewer changes.
    pub open spec fn needs_repaint(self, seq: int) -> bool {
        ||| seq == 0
        ||| seq < self.first()
        ||| seq > self.seqno
        ||| self.seqno - seq > full_paint_cost(self.canvas.width, self.canvas.height)
    }

    /// The stream that brings a display up to date that was so at `seq`.
    pub open spec fn stream(self, seq: int) -> Seq<ChangeView> {
        if self.needs_repaint(seq) {
            repaint(self.canvas)
        } else {
            self.changes.skip(seq - self.first())
        }
    }

    /// The screen after the changes before `seq` were folded away.  Nothing
    /// happens where `seq` is not the number of a known change or of the next
    /// one.
    pub open spec fn flushed(self, seq: int) -> ScreenView {
        if self.first() <= seq <= self.seqno {
            ScreenView { changes: self.changes.skip(seq - self.first()), ..self }
        } else {
            self
        }
    }

    /// The screen after its size has changed.  The changes made before it are
    /// folded away.
    pub open spec fn resized(self, width: int, height: int) -> ScreenView {
        ScreenView {
            canvas: self.canvas.resized(width, height),
            seqno: if self.changes.len() > 0 {
                self.seqno + 1
            } else {
                self.seqno
            },
            changes: seq![],
        }
    }
}

/// An estimate of the number of changes that repainting a display takes: one
/// per cell with a fifth more for changes of attributes, and three to frame
/// them.
pub open spec fn full_paint_cost(width: int, height: int) -> int {
    3 + (width * height * 6) / 5
}

/// What the rows of a screen hold.
spec fn lines_view(lines: Seq<Line>) -> Seq<Seq<CellView>> {
    Seq::new(lines.len(), |row: int| lines[row]@)
}

/// A terminal screen.
pub struct Screen {
    width: usize,
    height: usize,
    lines: Vec<Line>,
    attributes: CellAttributes,
    xpos: usize,
    ypos: usize,
    seqno: SequenceNo,
    changes: Vec<Change>,
}

impl View for Screen {
    type V = ScreenView;

    closed spec fn view(&self) -> ScreenView {
        ScreenView {
            canvas: Canvas {
                width: self.width as int,
                height: self.height as int,
                lines: lines_view(self.lines@),
                attrs: self.attributes@,
                x: self.xpos as int,
                y: self.ypos as int,
            },
            seqno: self.seqno as int,
            changes: changes_view(self.changes@),
        }
    }
}

impl Default for Screen {
    /// A screen without any cells.
    fn default() -> (screen: Screen)
        ensures
            screen.wf(),
            screen@ == (ScreenView {
                canvas: Canvas::cleared(0, 0),
                seqno: 0,
                changes: seq![],
            }),
            screen@.canvas.width == 0,
            screen@.canvas.height == 0,
            screen@.canvas.lines.len() == 0,
            is_plain(screen@.canvas.attrs),
            screen@.canvas.x == 0,
            screen@.canvas.y == 0,
    {
        let screen = Screen {
            width: 0,
            height: 0,
            lines: Vec::new(),
            attributes: CellAttributes::default(),
            xpos: 0,
            ypos: 0,
            seqno: 0,
            changes: Vec::new(),
        };
        proof {
            assert(screen@.canvas.lines =~= Canvas::cleared(0, 0).lines);
            assert(screen@.changes =~= seq![]);
            law_history_starts(screen@);
        }
        screen
    }
}

impl Screen {
    /// What holds of every screen.
    pub open spec fn wf(&self) -> bool {
        self@.wf()
    }

    /// A blank screen of the given size.
    pub fn new(width: usize, height: usize) -> (screen: Screen)
        requires
            width > 0,
            height > 0,
        ensures
            screen.wf(),
            screen@ == (ScreenView {
                canvas: Canvas::cleared(width as int, height as int),
                seqno: 0,
                changes: seq![],
            }),
            screen@.canvas.width == width,
            screen@.canvas.height == height,
            screen@.canvas.lines.len() == height,
            forall|row: int|
                0 <= row < height ==> (#[trigger] screen@.canvas.lines[row]).len() == width,
            forall|row: int, col: int|
                0 <= row < height && 0 <= col < width ==> {
                    let cell = #[trigger] screen@.canvas.lines[row][col];
                    &&& cell.ch == ' '
                    &&& cell.attrs.intensity == Intensity::Normal
                    &&& cell.attrs.underline == Underline::Off
                    &&& cell.attrs.blink == Blink::Off
                    &&& !cell.attrs.italic
                    &&& !cell.attrs.reverse
                    &&& !cell.attrs.strikethrough
                    &&& !cell.attrs.invisible
                    &&& cell.attrs.foreground == ColorAttribute::Default
                    &&& cell.attrs.background == ColorAttribute::Default
                    &&& cell.attrs.hyperlink is None
                },
            is_plain(screen@.canvas.attrs),
            screen@.canvas.x == 0,
            screen@.canvas.y == 0,
    {
        let mut screen = Screen::default();
        screen.resize(width, height);
        proof {
            let lines = Canvas::cleared(width as int, height as int).lines;
            assert forall|row: int| 0 <= row < height implies #[trigger] screen@.canvas.lines[row]
                =~= lines[row] by {}
            assert(screen@.canvas.lines =~= lines);
        }
        screen
    }

    /// Gives the screen another size.  Cells that are in both sizes keep what
    /// they show, and the cursor stays inside.
    pub fn resize(&mut self, width: usize, height: usize)
        requires
            old(self).wf(),
            width > 0,
            height > 0,
            old(self)@.changes.len() > 0 ==> old(self)@.seqno < usize::MAX,
        ensures
            final(self).wf(),
            final(self)@ == old(self)@.resized(width as int, height as int),
            final(self)@.canvas.width == width,
            final(self)@.canvas.height == height,
            final(self)@.canvas.lines.len() == height,
            forall|row: int|
                0 <= row < height ==> (#[trigger] final(self)@.canvas.lines[row]).len() == width,
            forall|row: int, col: int|
                0 <= row < height && 0 <= col < width && row < old(self)@.canvas.height && col
                    < old(self)@.canvas.width ==> #[trigger] final(self)@.canvas.lines[row][col]
                    == old(self)@.canvas.lines[row][col],
            forall|row: int, col: int|
                0 <= row < height && 0 <= col < width && (row >= old(self)@.canvas.height || col
                    >= old(self)@.canvas.width) ==> is_plain_space(
                    #[trigger] final(self)@.canvas.lines[row][col],
                ),
            final(self)@.canvas.attrs == old(self)@.canvas.attrs,
            final(self)@.canvas.x == if old(self)@.canvas.x < width {
                old(self)@.canvas.x
            } else {
                width - 1
            },
            final(self)@.canvas.y == if old(self)@.canvas.y < height {
                old(self)@.canvas.y
            } else {
                height - 1
            },
            final(self)@.changes.len() == 0,
            final(self)@.seqno == old(self)@.seqno + if old(self)@.changes.len() > 0 {
                1int
            } else {
                0int
            },
    {
        self.lines.resize(height, Line::with_width(width));
        let ghost lines = self.lines@;
        let mut row: usize = 0;
        while row < self.lines.len()
            invariant
                row <= self.lines@.len(),
                self.lines@.len() == lines.len() == height,
                forall|r: int| row <= r < height ==> #[trigger] self.lines@[r] == lines[r],
                forall|r: int| 0 <= r < row ==> (#[trigger] self.lines@[r])@.len() == width,
                forall|r: int, c: int|
                    0 <= r < row && 0 <= c < width ==> #[trigger] self.lines@[r]@[c] == if c
                        < lines[r]@.len() {
                        lines[r]@[c]
                    } else {
                        blank()
                    },
                *self == (Screen { lines: self.lines, ..*old(self) }),
            decreases self.lines@.len() - row,
        {
            self.lines[row].resize(width);
            row = row + 1;
        }
        self.width = width;
        self.height = height;

        // The changes that led up to here no longer describe the screen, so
        // they are folded away: the next call of get_changes repaints it.
        if !self.changes.is_empty() {
            self.seqno = self.seqno + 1;
            self.changes.clear();
        }

        // Ensure that the cursor position is well-defined
        self.xpos = compute_position_change(self.xpos, &Position::NoChange, self.width);
        self.ypos = compute_position_change(self.ypos, &Position::NoChange, self.height);
        proof {
            let before = old(self)@.canvas;
            let after = before.resized(width as int, height as int);
            assert forall|r: int| 0 <= r < height implies #[trigger] self@.canvas.lines[r]
                =~= after.lines[r] by {
                assert(self@.canvas.lines[r].len() == width);
                if r < before.height {
                    assert(before.lines[r].len() == before.width);
                    assert(lines[r] == old(self).lines@[r]);
                }
            }
            assert(self@.canvas.lines =~= after.lines);
            assert(self@.changes =~= seq![]);
            law_history_restarted_by_resize(old(self)@, width as int, height as int);
        }
    }

    /// Efficiently apply a series of changes
    /// Returns the sequence number at the end of the change.
    pub fn add_changes(&mut self, changes: Vec<Change>) -> (seq: SequenceNo)
        requires
            old(self).wf(),
            old(self)@.canvas.accepts_all(changes_view(changes@)),
            old(self)@.seqno + changes@.len() <= usize::MAX,
        ensures
            final(self).wf(),
            final(self)@ == old(self)@.added(changes_view(changes@)),
            final(self)@.canvas.same_size(old(self)@.canvas),
            final(self)@.canvas == old(self)@.canvas.apply_all(changes_view(changes@)),
            final(self)@.seqno == old(self)@.seqno + changes@.len(),
            final(self)@.changes.len() == old(self)@.changes.len() + changes@.len(),
            forall|i: int|
                0 <= i < old(self)@.changes.len() ==> #[trigger] final(self)@.changes[i]
                    == old(self)@.changes[i],
            forall|i: int|
                0 <= i < changes@.len() ==> final(self)@.changes[old(self)@.changes.len() + i] == (
                #[trigger] changes@[i])@,
            seq == old(self)@.last_seq(changes@.len() as int),
            old(self)@.seqno > 0 ==> seq + 1 == old(self)@.seqno + changes@.len(),
            old(self)@.seqno == 0 ==> seq == changes@.len(),
    {
        let mut changes = changes;
        let seq = self.seqno.saturating_sub(1) + changes.len();
        let ghost stream = changes_view(changes@);

        let mut i: usize = 0;
        while i < changes.len()
            invariant
                i <= changes@.len(),
                stream == changes_view(changes@),
                old(self)@.canvas.accepts_all(stream),
                self@ == (ScreenView {
                    canvas: old(self)@.canvas.apply_all(stream.take(i as int)),
                    ..old(self)@
                }),
                self@.canvas.wf(),
                self@.canvas.same_size(old(self)@.canvas),
            decreases changes@.len() - i,
        {
            let change = &changes[i];
            proof {
                assert(stream[i as int] == change@);
                assert(self@.canvas.accepts(change@));
                law_apply_keeps_wf(self@.canvas, change@);
                assert(stream.take(i + 1).drop_last() =~= stream.take(i as int));
            }
            self.apply_change(change);
            i = i + 1;
        }
        proof {
            assert(stream.take(i as int) =~= stream);
        }

        self.seqno = self.seqno + changes.len();
        self.changes.append(&mut changes);
        proof {
            assert(self@.changes =~= old(self)@.changes + stream);
            let base = choose|base: Canvas| old(self)@.led_to_from(base);
            law_history_kept_by_changes(old(self)@, base, stream);
        }
        seq
    }

    /// Apply a change and return the sequence number at the end of the change.
    pub fn add_change<C: Into<Change>>(&mut self, change: C) -> (seq: SequenceNo)
        requires
            old(self).wf(),
            forall|made: Change| #[trigger]
                call_ensures(<C as Into<Change>>::into, (change,), made)
                    ==> old(self)@.canvas.accepts(made@),
            old(self)@.seqno < usize::MAX,
        ensures
            final(self).wf(),
            exists|made: Change|
                {
                    &&& #[trigger] call_ensures(<C as Into<Change>>::into, (change,), made)
                    &&& final(self)@ == old(self)@.added(seq![made@])
                    &&& final(self)@.canvas == old(self)@.canvas.apply(made@)
                    &&& final(self)@.changes == old(self)@.changes.push(made@)
                },
            final(self)@.seqno == old(self)@.seqno + 1,
            final(self)@.canvas.same_size(old(self)@.canvas),
            seq == old(self)@.seqno,
    {
        let seq = self.seqno;
        let change: Change = change.into();
        proof {
            law_apply_keeps_wf(self@.canvas, change@);
        }
        self.apply_change(&change);
        self.seqno = self.seqno + 1;
        self.changes.push(change);
        proof {
            assert(self@.changes =~= old(self)@.changes + seq![change@]);
            let stream = seq![change@];
            assert(stream.drop_last() =~= seq![]);
            assert(old(self)@.canvas.apply_all(stream) == old(self)@.canvas.apply_all(
                stream.drop_last(),
            ).apply(stream.last()));
            let base = choose|base: Canvas| old(self)@.led_to_from(base);
            law_history_kept_by_changes(old(self)@, base, stream);
        }
        seq
    }

    fn apply_change(&mut self, change: &Change)
        requires
            old(self)@.canvas.wf(),
            old(self)@.canvas.accepts(change@),
        ensures
            final(self)@ == (ScreenView {
                canvas: old(self)@.canvas.apply(change@),
                ..old(self)@
            }),
    {
        match change {
            Change::AllAttributes(attr) => {
                self.attributes = attr.clone();
            },
            Change::Text(text) => {
                self.print_text(text.as_str());
            },
            Change::Attribute(change) => {
                self.change_attribute(change);
            },
            Change::CursorPosition { x, y } => {
                self.set_cursor_pos(x, y);
            },
        }
    }

    fn scroll_screen_up(&mut self)
        requires
            old(self)@.canvas.height > 0,
            old(self)@.canvas.is_grid(),
        ensures
            final(self)@ == (ScreenView { canvas: old(self)@.canvas.scrolled_up(), ..old(self)@ }),
    {
        self.lines.remove(0);
        let line = Line::with_width(self.width);
        proof {
            assert(line@ =~= blank_line(self.width as int));
        }
        self.lines.push(line);
        proof {
            assert(self@.canvas.lines =~= old(self)@.canvas.scrolled_up().lines);
        }
    }

    fn line_feed(&mut self)
        requires
            old(self)@.canvas.wf(),
            !old(self)@.canvas.is_empty(),
        ensures
            final(self)@ == (ScreenView { canvas: old(self)@.canvas.line_feed(), ..old(self)@ }),
    {
        let new_y = self.ypos + 1;
        if new_y >= self.height {
            self.scroll_screen_up();
        } else {
            self.ypos = new_y;
        }
    }

    fn print_char(&mut self, c: char)
        requires
            old(self)@.canvas.wf(),
            !old(self)@.canvas.is_empty() || c == '\r',
        ensures
            final(self)@ == (ScreenView {
                canvas: old(self)@.canvas.print_char(c),
                ..old(self)@
            }),
    {
        if c == '\r' {
            self.xpos = 0;
            return ;
        }
        if c == '\n' {
            self.line_feed();
            return ;
        }
        if self.xpos >= self.width {
            self.line_feed();
            self.xpos = 0;
        }
        let ghost at = self@.canvas;
        proof {
            assert(at.lines.len() == at.height);
            assert(at.lines[at.y].len() == at.width);
        }
        let cell = Cell::new(c, self.attributes.clone());
        let ghost put = cell@;
        self.lines[self.ypos].cells[self.xpos] = cell;
        proof {
            assert(self@.canvas.lines[at.y] =~= at.lines[at.y].update(at.x, put));
            assert(self@.canvas.lines =~= at.put(c).lines);
        }

        // Increment the position now; we'll defer processing
        // wrapping until the next printed character, otherwise
        // we'll eagerly scroll when we reach the right margin.
        self.xpos = self.xpos + 1;
    }

    /// Prints the characters of a text one after the other.
    pub(crate) fn print_text(&mut self, text: &str)
        requires
            old(self)@.canvas.wf(),
            old(self)@.canvas.accepts(ChangeView::Text(text@)),
        ensures
            final(self)@ == (ScreenView { canvas: old(self)@.canvas.print(text@), ..old(self)@ }),
            final(self)@.canvas.wf(),
            final(self)@.canvas.same_size(old(self)@.canvas),
            final(self)@.canvas.attrs == old(self)@.canvas.attrs,
    {
        for c in iter: text.chars()
            invariant
                iter.seq() == text@,
                old(self)@.canvas.wf(),
                old(self)@.canvas.accepts(ChangeView::Text(text@)),
                self@ == (ScreenView {
                    canvas: old(self)@.canvas.print(text@.take(iter.index() as int)),
                    ..old(self)@
                }),
                self@.canvas.wf(),
                self@.canvas.same_size(old(self)@.canvas),
                self@.canvas.attrs == old(self)@.canvas.attrs,
        {
            proof {
                let i = iter.index() as int;
                assert(text@.take(i + 1).drop_last() =~= text@.take(i));
                assert(text@[i] == c);
                lemma_print_char_wf(self@.canvas, c);
            }
            self.print_char(c);
        }
        proof {
            assert(text@.take(text@.len() as int) =~= text@);
        }
    }

    fn change_attribute(&mut self, change: &AttributeChange)
        ensures
            final(self)@ == (ScreenView {
                canvas: Canvas {
                    attrs: old(self)@.canvas.attrs.changed(change@),
                    ..old(self)@.canvas
                },
                ..old(self)@
            }),
    {
        match change {
            AttributeChange::Intensity(value) => {
                self.attributes.set_intensity(*value);
            },
            AttributeChange::Underline(value) => {
                self.attributes.set_underline(*value);
            },
            AttributeChange::Italic(value) => {
                self.attributes.set_italic(*value);
            },
            AttributeChange::Blink(value) => {
                self.attributes.set_blink(*value);
            },
            AttributeChange::Reverse(value) => {
                self.attributes.set_reverse(*value);
            },
            AttributeChange::StrikeThrough(value) => {
                self.attributes.set_strikethrough(*value);
            },
            AttributeChange::Invisible(value) => {
                self.attributes.set_invisible(*value);
            },
            AttributeChange::Foreground(value) => {
                self.attributes.foreground = *value;
            },
            AttributeChange::Background(value) => {
                self.attributes.background = *value;
            },
            AttributeChange::Hyperlink(value) => {
                self.attributes.hyperlink = clone_link(value);
            },
        }
    }

    fn set_cursor_pos(&mut self, x: &Position, y: &Position)
        requires
            old(self)@.canvas.wf(),
            !old(self)@.canvas.is_empty(),
        ensures
            final(self)@ == (ScreenView {
                canvas: old(self)@.canvas.move_cursor(*x, *y),
                ..old(self)@
            }),
    {
        self.xpos = compute_position_change(self.xpos, x, self.width);
        self.ypos = compute_position_change(self.ypos, y, self.height);
    }

    /// Returns a stream of changes suitable to update the screen
    /// to match the model.  The input seq argument should be 0
    /// on the first call, or in any situation where the screen
    /// contents may have been invalidated, otherwise it should
    /// be set to the `SequenceNo` returned by the most recent call
    /// to `get_changes`.
    /// `get_changes` will use a heuristic to decide on the lower
    /// cost approach to updating the screen and return some sequence
    /// of `Change` entries that will update the display accordingly.
    /// The worst case is that this function will fabricate a sequence
    /// of Change entries to paint the screen from scratch.
    pub fn get_changes(&self, seq: SequenceNo) -> (result: (SequenceNo, Cow<'_, [Change]>))
        requires
            self.wf(),
        ensures
            result.0 == self@.seqno,
            result.1@.len() == self@.stream(seq as int).len(),
            changes_view(result.1@) == self@.stream(seq as int),
            result.1 is Owned <==> self@.needs_repaint(seq as int),
            result.1 is Owned <==> {
                ||| seq == 0
                ||| seq + self@.changes.len() < self@.seqno
                ||| seq > self@.seqno
                ||| 5 * (self@.seqno - seq - 3) > 6 * (self@.canvas.width * self@.canvas.height)
            },
            result.1 is Owned ==> changes_view(result.1@) == repaint(self@.canvas),
            result.1 is Borrowed ==> {
                &&& result.1@.len() == self@.seqno - seq
                &&& forall|i: int|
                    0 <= i < result.1@.len() ==> (#[trigger] result.1@[i])@
                        == self@.changes[self@.changes.len() - result.1@.len() + i]
            },
    {
        // Do we have continuity in the sequence numbering?
        let first = self.seqno - self.changes.len();
        if seq == 0 || first > seq || seq > self.seqno {
            // No, we have folded away some data, we'll need a full paint
            return (self.seqno, Cow::Owned(self.repaint_all()));
        }

        // Approximate cost to render the change screen
        let delta_cost = self.seqno - seq;
        // Approximate cost to repaint from scratch
        let full_cost = self.estimate_full_paint_cost();

        if delta_cost > full_cost {
            (self.seqno, Cow::Owned(self.repaint_all()))
        } else {
            let delta = vstd::slice::slice_subrange(
                self.changes.as_slice(),
                seq - first,
                self.changes.len(),
            );
            proof {
                assert(changes_view(delta@) =~= self@.stream(seq as int));
            }
            (self.seqno, Cow::Borrowed(delta))
        }
    }

    /// After having called `get_changes` and processed the resultant
    /// change stream, the caller can then pass the returned `SequenceNo`
    /// value to this call to prune the list of changes and free up
    /// resources.
    pub fn flush_changes_older_than(&mut self, seq: SequenceNo)
        requires
            old(self).wf(),
        ensures
            final(self).wf(),
            final(self)@ == old(self)@.flushed(seq as int),
            final(self)@.canvas == old(self)@.canvas,
            final(self)@.seqno == old(self)@.seqno,
            seq <= old(self)@.seqno <= seq + old(self)@.changes.len() ==> {
                &&& final(self)@.changes.len() == old(self)@.seqno - seq
                &&& forall|i: int|
                    0 <= i < final(self)@.changes.len() ==> #[trigger] final(self)@.changes[i]
                        == old(self)@.changes[seq - (old(self)@.seqno - old(self)@.changes.len())
                        + i]
            },
            !(seq <= old(self)@.seqno <= seq + old(self)@.changes.len()) ==> final(self)@.changes
                == old(self)@.changes,
    {
        let first = self.seqno - self.changes.len();
        if seq < first || seq > self.seqno {
            return ;
        }
        self.changes = self.changes.split_off(seq - first);
        proof {
            assert(self@.changes =~= old(self)@.flushed(seq as int).changes);
            let base = choose|base: Canvas| old(self)@.led_to_from(base);
            law_history_kept_by_flush(old(self)@, base, seq as int);
        }
    }

    /// Without allocating resources, estimate how many Change entries
    /// we would produce in repaint_all for the current state.
    fn estimate_full_paint_cost(&self) -> (cost: usize)
        ensures
            ({
                let exact = full_paint_cost(self@.canvas.width, self@.canvas.height);
                cost == if exact <= usize::MAX {
                    exact
                } else {
                    usize::MAX as int
                }
            }),
    {
        // assume 1 per cell with 20% overhead for attribute changes
        match self.width.checked_mul(self.height) {
            Some(cells) => cells.saturating_add(cells / 5).saturating_add(3),
            None => usize::MAX,
        }
    }

    /// The changes that paint the screen from scratch.
    pub(crate) fn repaint_all(&self) -> (result: Vec<Change>)
        requires
            self@.canvas.wf(),
        ensures
            changes_view(result@) == repaint(self@.canvas),
    {
        let ghost lines = self@.canvas.lines;
        let mut result: Vec<Change> = Vec::new();

        // Home the cursor
        result.push(
            Change::CursorPosition { x: Position::Absolute(0), y: Position::Absolute(0) },
        );
        // Reset attributes back to defaults
        result.push(Change::AllAttributes(CellAttributes::default()));

        let mut attr = CellAttributes::default();
        proof {
            assert(changes_view(result@) =~= paint_lines(lines.take(0)));
        }

        let mut idx: usize = 0;
        while idx < self.lines.len()
            invariant
                idx <= self.lines@.len(),
                lines == self@.canvas.lines,
                self@.canvas.wf(),
                changes_view(result@) == paint_lines(lines.take(idx as int)),
                attr@ == active_below(lines.take(idx as int)),
                result@.len() > 0,
                result@.last()@ is Text <==> idx > 0,
            decreases self.lines@.len() - idx,
        {
            let line = &self.lines[idx];
            let ghost out = changes_view(result@);
            let ghost active = attr@;
            let ghost own = draw_line(seq![], active, line@);
            proof {
                assert(lines[idx as int] == line@);
                assert(line@.len() == self.width);
                assert(lines.take(idx + 1).drop_last() =~= lines.take(idx as int));
                assert(lines.take(idx + 1).last() == line@);
            }
            let ghost placed = if idx > 0 && line@.first().attrs != active {
                out.push(move_to_next_line())
            } else {
                out
            };
            proof {
                lemma_draw_line_joins(placed, active, line@);
            }
            let mut changes = line.changes(&attr);
            proof {
                assert(changes_view(changes@) == own);
                assert(changes@[0]@ == own.first());
            }

            let result_len = result.len();
            if result[result_len - 1].is_text() && changes[0].is_text() {
                // Assumption: that the output has working automatic margins.
                // We can skip the cursor position change and just join the
                // text items together
                let mut joined = String::from(result[result_len - 1].text());
                joined.append(changes[0].text());
                result.truncate(result_len - 1);
                changes[0] = Change::from(joined);
            } else if idx != 0 {
                // We emit a relative move at the end of each
                // line with the theory that this will turn into
                // a short \r\n sequence rather than the longer
                // absolute cursor positioning sequence
                result.push(
                    Change::CursorPosition { x: Position::Absolute(0), y: Position::Relative(1) },
                );
            }
            result.append(&mut changes);
            proof {
                assert(changes_view(result@) =~= join(placed, own));
                assert(join(placed, own).last() is Text);
                assert(changes_view(result@).last() == result@.last()@);
            }
            attr = line.cells[self.width - 1].attrs().clone();
            idx = idx + 1;
        }
        proof {
            assert(lines.take(idx as int) =~= lines);
        }

        // Place the cursor at its intended position
        let ghost out = changes_view(result@);
        result.push(
            Change::CursorPosition {
                x: Position::Absolute(self.xpos),
                y: Position::Absolute(self.ypos),
            },
        );
        proof {
            assert(changes_view(result@) =~= out.push(
                move_to(self@.canvas.x, self@.canvas.y),
            ));
        }
        result
    }

    /// Computes the change stream required to make the region within `self`
    /// at coordinates `x`, `y` and size `width`, `height` look like the
    /// same sized region within `other` at coordinates `other_x`, `other_y`.
    pub fn diff_region(
        &self,
        x: usize,
        y: usize,
        width: usize,
        height: usize,
        other: &Screen,
        other_x: usize,
        other_y: usize,
    ) -> (result: Vec<Change>)
        requires
            self.wf(),
            other.wf(),
            region_at(x, y, width, height, other_x, other_y).within(self@.canvas, other@.canvas),
        ensures
            ({
                let region = region_at(x, y, width, height, other_x, other_y);
                let stream = changes_view(result@);
                &&& stream == region_patch(region, self@.canvas.lines, other@.canvas.lines)
                &&& self@.canvas.accepts_all(stream)
                &&& self@.canvas.apply_all(stream).lines == region.overlay(
                    self@.canvas.lines,
                    other@.canvas.lines,
                )
                &&& forall|row: int, col: int|
                    0 <= row < self@.canvas.height && 0 <= col < self@.canvas.width
                        ==> #[trigger] self@.canvas.apply_all(stream).lines[row][col] == if y <= row
                        < y + height && x <= col < x + width {
                        other@.canvas.lines[row - y + other_y][col - x + other_x]
                    } else {
                        self@.canvas.lines[row][col]
                    }
            }),
    {
        let ghost region = region_at(x, y, width, height, other_x, other_y);
        let ghost lines = self@.canvas.lines;
        let ghost from = other@.canvas.lines;
        let mut result: Vec<Change> = Vec::new();
        // Keep track of the cursor position that the change stream
        // selects for updates so that we can avoid emitting redundant
        // position changes.
        let mut cursor: Option<(usize, usize)> = None;
        // Similarly, we keep track of the cell attributes that we have
        // activated for change stream to avoid over-emitting.
        // Tracking the cursor and attributes in this way helps to coalesce
        // lines of text into simpler strings.
        let mut attr: Option<CellAttributes> = None;
        let ghost mut cells: Seq<Placed> = seq![];
        proof {
            assert(changes_view(result@) =~= patch(cells));
        }

        let mut row: usize = 0;
        while row < height
            invariant
                row <= height,
                self.wf(),
                other.wf(),
                lines == self@.canvas.lines,
                from == other@.canvas.lines,
                region == region_at(x, y, width, height, other_x, other_y),
                region.within(self@.canvas, other@.canvas),
                cells == region.diffs(lines, from, row as int),
                changes_view(result@) == patch(cells),
                tracks(cursor, attr, cells),
            decreases height - row,
        {
            let row_num = y + row;
            let line = &self.lines[row_num];
            let other_line = &other.lines[other_y + row];
            let ghost above = cells;
            proof {
                assert(lines[row_num as int] == line@);
                assert(from[other_y + row] == other_line@);
                assert(line@.len() == self.width);
                assert(other_line@.len() == other.width);
                assert(cells =~= above + region.row_diffs(line@, other_line@, row_num as int, 0));
            }
            let mut col: usize = 0;
            while col < width
                invariant
                    col <= width,
                    row < height,
                    row_num == y + row,
                    x + width <= line@.len(),
                    other_x + width <= other_line@.len(),
                    line@.len() <= usize::MAX,
                    other_line@.len() <= usize::MAX,
                    region.x == x,
                    region.other_x == other_x,
                    cells == above + region.row_diffs(
                        line@,
                        other_line@,
                        row_num as int,
                        col as int,
                    ),
                    changes_view(result@) == patch(cells),
                    tracks(cursor, attr, cells),
                decreases width - col,
            {
                let col_num = x + col;
                let cell = &line.cells[col_num];
                let other_cell = &other_line.cells[other_x + col];
                proof {
                    assert(line@[col_num as int] == cell@);
                    assert(other_line@[other_x + col] == other_cell@);
                }
                if !(*cell == *other_cell) {
                    let ghost before = cells;
                    let ghost out = patch(before);
                    let ghost next = Placed {
                        row: row_num as int,
                        col: col_num as int,
                        cell: other_cell@,
                    };
                    let adjacent = match cursor {
                        Some((cursor_row, cursor_col)) => cursor_row == row_num && cursor_col
                            < col_num && col_num - cursor_col == 1,
                        None => false,
                    };
                    if !adjacent {
                        // Need to explicitly move the cursor
                        result.push(
                            Change::CursorPosition {
                                x: Position::Absolute(col_num),
                                y: Position::Absolute(row_num),
                            },
                        );
                    }

                    // Record the effective position for next time.
                    cursor = Some((row_num, col_num));
                    let ghost placed = if adjacent {
                        out
                    } else {
                        out.push(move_to(col_num as int, row_num as int))
                    };
                    proof {
                        assert(changes_view(result@) =~= placed);
                    }

                    // we could get fancy and try to minimize the update traffic
                    // by computing a series of AttributeChange values here.
                    // For now, let's just record the new value
                    let active = match &attr {
                        Some(attr) => *attr == *other_cell.attrs(),
                        None => false,
                    };
                    if !active {
                        result.push(Change::AllAttributes(other_cell.attrs().clone()));
                        attr = Some(other_cell.attrs().clone());
                    }
                    let ghost colored = if active {
                        placed
                    } else {
                        placed.push(ChangeView::AllAttributes(other_cell@.attrs))
                    };
                    proof {
                        assert(changes_view(result@) =~= colored);
                    }
                    push_text(&mut result, other_cell.char());
                    proof {
                        cells = before.push(next);
                        assert(cells.drop_last() =~= before);
                        assert(cells =~= above + region.row_diffs(
                            line@,
                            other_line@,
                            row_num as int,
                            col + 1,
                        ));
                    }
                }
                col = col + 1;
            }
            row = row + 1;
        }
        proof {
            law_region_patch_reproduces(region, self@.canvas, other@.canvas);
        }
        result
    }

    /// Computes the change stream required to make `self` have the same
    /// screen contents as `other`.
    pub fn diff_screens(&self, other: &Screen) -> (result: Vec<Change>)
        requires
            self.wf(),
            other.wf(),
            self@.canvas.width <= other@.canvas.width,
            self@.canvas.height <= other@.canvas.height,
        ensures
            ({
                let whole = whole_at(self@.canvas, 0, 0);
                let stream = changes_view(result@);
                &&& stream == region_patch(whole, self@.canvas.lines, other@.canvas.lines)
                &&& self@.canvas.accepts_all(stream)
                &&& self@.canvas.apply_all(stream).lines == whole.overlay(
                    self@.canvas.lines,
                    other@.canvas.lines,
                )
                &&& forall|row: int, col: int|
                    0 <= row < self@.canvas.height && 0 <= col < self@.canvas.width
                        ==> #[trigger] self@.canvas.apply_all(stream).lines[row][col]
                        == other@.canvas.lines[row][col]
            }),
    {
        self.diff_region(0, 0, self.width, self.height, other, 0, 0)
    }

    /// Draw the contents of `other` into self at the specified coordinates.
    /// The required updates are recorded as Change entries as well as stored
    /// in the screen line/cell data.
    pub fn draw_from_screen(&mut self, other: &Screen, x: usize, y: usize) -> (seq: SequenceNo)
        requires
            old(self).wf(),
            other.wf(),
            x + other@.canvas.width <= old(self)@.canvas.width,
            y + other@.canvas.height <= old(self)@.canvas.height,
            old(self)@.seqno + region_patch(
                whole_at(other@.canvas, x as int, y as int),
                old(self)@.canvas.lines,
                other@.canvas.lines,
            ).len() <= usize::MAX,
        ensures
            final(self).wf(),
            ({
                let region = whole_at(other@.canvas, x as int, y as int);
                let stream = region_patch(region, old(self)@.canvas.lines, other@.canvas.lines);
                &&& final(self)@ == old(self)@.added(stream)
                &&& final(self)@.canvas.same_size(old(self)@.canvas)
                &&& final(self)@.canvas.lines == region.overlay(
                    old(self)@.canvas.lines,
                    other@.canvas.lines,
                )
                &&& seq == old(self)@.last_seq(stream.len() as int)
                &&& final(self)@.canvas.lines.len() == old(self)@.canvas.height
                &&& forall|row: int, col: int|
                    0 <= row < old(self)@.canvas.height && 0 <= col < old(self)@.canvas.width
                        ==> #[trigger] final(self)@.canvas.lines[row][col] == if y <= row < y
                        + other@.canvas.height && x <= col < x + other@.canvas.width {
                        other@.canvas.lines[row - y][col - x]
                    } else {
                        old(self)@.canvas.lines[row][col]
                    }
            }),
    {
        let changes = self.diff_region(x, y, other.width, other.height, other, 0, 0);
        self.add_changes(changes)
    }

    /// Copy the contents of the specified region to the same sized
    /// region elsewhere in the screen display.
    /// The regions may overlap.
    /// The destination region is the same size as the source
    /// (which is implied by the function parameters) and both fit
    /// within the width and height of the Screen.
    pub fn copy_region(
        &mut self,
        src_x: usize,
        src_y: usize,
        width: usize,
        height: usize,
        dest_x: usize,
        dest_y: usize,
    ) -> (seq: SequenceNo)
        requires
            old(self).wf(),
            region_at(dest_x, dest_y, width, height, src_x, src_y).within(
                old(self)@.canvas,
                old(self)@.canvas,
            ),
            old(self)@.seqno + region_patch(
                region_at(dest_x, dest_y, width, height, src_x, src_y),
                old(self)@.canvas.lines,
                old(self)@.canvas.lines,
            ).len() <= usize::MAX,
        ensures
            final(self).wf(),
            ({
                let region = region_at(dest_x, dest_y, width, height, src_x, src_y);
                let lines = old(self)@.canvas.lines;
                let stream = region_patch(region, lines, lines);
                &&& final(self)@ == old(self)@.added(stream)
                &&& final(self)@.canvas.same_size(old(self)@.canvas)
                &&& final(self)@.canvas.lines == region.overlay(lines, lines)
                &&& seq == old(self)@.last_seq(stream.len() as int)
                &&& final(self)@.canvas.lines.len() == old(self)@.canvas.height
                &&& forall|row: int, col: int|
                    0 <= row < old(self)@.canvas.height && 0 <= col < old(self)@.canvas.width
                        ==> #[trigger] final(self)@.canvas.lines[row][col] == if dest_y <= row
                        < dest_y + height && dest_x <= col < dest_x + width {
                        lines[row - dest_y + src_y][col - dest_x + src_x]
                    } else {
                        lines[row][col]
                    }
            }),
    {
        let changes = self.diff_region(dest_x, dest_y, width, height, self, src_x, src_y);
        self.add_changes(changes)
    }

    /// The column and the row of the cursor.  The column equals the width while
    /// the cursor waits behind the last one.
    pub fn cursor_position(&self) -> (position: (usize, usize))
        ensures
            position.0 == self@.canvas.x,
            position.1 == self@.canvas.y,
    {
        (self.xpos, self.ypos)
    }

    /// Returns the entire contents of the screen as a string.
    /// Only the character data is returned.  The end of each line is
    /// returned as a \n character.
    /// This function exists primarily for testing purposes.
    pub fn screen_chars_to_string(&self) -> (s: String)
        ensures
            s@ == screen_chars(self@.canvas.lines),
            self.wf() ==> {
                let width = self@.canvas.width;
                let height = self@.canvas.height;
                &&& s@.len() == height * (width + 1)
                &&& forall|row: int, col: int|
                    0 <= row < height && 0 <= col < width ==> s@[row * (width + 1) + col] == (
                    #[trigger] self@.canvas.lines[row][col]).ch
                &&& forall|row: int|
                    0 <= row < height ==> #[trigger] s@[row * (width + 1) + width] == '\n'
            },
    {
        let mut s = String::new();
        let ghost lines = self@.canvas.lines;
        proof {
            assert(s@ =~= screen_chars(lines.take(0)));
        }

        let mut row: usize = 0;
        while row < self.lines.len()
            invariant
                row <= self.lines@.len(),
                lines == self@.canvas.lines,
                s@ == screen_chars(lines.take(row as int)),
            decreases self.lines@.len() - row,
        {
            let line = &self.lines[row];
            let ghost above = s@;
            proof {
                assert(lines[row as int] == line@);
                assert(s@ =~= above + line_chars(line@.take(0)));
            }
            let mut col: usize = 0;
            while col < line.cells.len()
                invariant
                    col <= line.cells@.len(),
                    s@ == above + line_chars(line@.take(col as int)),
                decreases line.cells@.len() - col,
            {
                s.push(line.cells[col].char());
                col = col + 1;
                proof {
                    assert(s@ =~= above + line_chars(line@.take(col as int)));
                }
            }
            s.push('\n');
            row = row + 1;
            proof {
                assert(line@.take(col as int) =~= line@);
                assert(lines.take(row as int).drop_last() =~= lines.take(row - 1));
                assert(s@ =~= above + line_chars(line@).push('\n'));
            }
        }
        proof {
            assert(lines.take(row as int) =~= lines);
            if self.wf() {
                law_chars_by_place(self@.canvas);
            }
        }
        s
    }

    /// Returns the cell data for the screen.
    /// This is intended to be used for testing purposes.
    pub fn screen_cells(&self) -> (cells: Vec<&[Cell]>)
        ensures
            cells@.len() == self@.canvas.lines.len(),
            forall|row: int|
                0 <= row < cells@.len() ==> cells_view((#[trigger] cells@[row])@)
                    == self@.canvas.lines[row],
            forall|row: int|
                0 <= row < cells@.len() ==> (#[trigger] cells@[row])@.len()
                    == self@.canvas.lines[row].len(),
            forall|row: int, col: int|
                0 <= row < cells@.len() && 0 <= col < cells@[row]@.len() ==> (
                #[trigger] cells@[row]@[col])@ == self@.canvas.lines[row][col],
    {
        let mut cells: Vec<&[Cell]> = Vec::new();
        let mut row: usize = 0;
        while row < self.lines.len()
            invariant
                row <= self.lines@.len(),
                cells@.len() == row,
                forall|r: int|
                    0 <= r < row ==> cells_view((#[trigger] cells@[r])@) == self@.canvas.lines[r],
            decreases self.lines@.len() - row,
        {
            cells.push(self.lines[row].cells.as_slice());
            row = row + 1;
        }
        cells
    }
}

/// The characters of a row.
pub open spec fn line_chars(line: Seq<CellView>) -> Seq<char> {
    Seq::new(line.len(), |col: int| line[col].ch)
}

/// The characters of all rows, each row followed by a line feed.
pub open spec fn screen_chars(lines: Seq<Seq<CellView>>) -> Seq<char>
    decreases lines.len(),
{
    if lines.len() == 0 {
        seq![]
    } else {
        screen_chars(lines.drop_last()) + line_chars(lines.last()).push('\n')
    }
}

proof fn lemma_chars_by_place(lines: Seq<Seq<CellView>>, width: int)
    requires
        0 <= width,
        forall|row: int| 0 <= row < lines.len() ==> (#[trigger] lines[row]).len() == width,
    ensures
        screen_chars(lines).len() == lines.len() * (width + 1),
        forall|row: int, col: int|
            0 <= row < lines.len() && 0 <= col < width ==> screen_chars(lines)[row * (width + 1)
                + col] == (#[trigger] lines[row][col]).ch,
        forall|row: int|
            0 <= row < lines.len() ==> #[trigger] screen_chars(lines)[row * (width + 1) + width]
                == '\n',
    decreases lines.len(),
{
    if lines.len() > 0 {
        let above = lines.drop_last();
        let n = above.len() as int;
        assert forall|row: int| 0 <= row < above.len() implies (#[trigger] above[row]).len()
            == width by {
            assert(above[row] == lines[row]);
        }
        lemma_chars_by_place(above, width);
        assert((n + 1) * (width + 1) == n * (width + 1) + width + 1) by (nonlinear_arith);
        assert(lines[n].len() == width);
        assert forall|row: int, col: int|
            0 <= row < n && 0 <= col <= width implies 0 <= #[trigger] (row * (width + 1) + col) < n
            * (width + 1) by {
            assert(0 <= row * (width + 1) + col < n * (width + 1)) by (nonlinear_arith)
                requires
                    0 <= row < n,
                    0 <= col <= width,
            ;
        }
        assert forall|row: int, col: int|
            0 <= row < lines.len() && 0 <= col < width implies screen_chars(lines)[row * (width + 1)
            + col] == (#[trigger] lines[row][col]).ch by {
            if row < n {
                assert(0 <= row * (width + 1) + col < n * (width + 1));
                assert(above[row][col] == lines[row][col]);
            }
        }
        assert forall|row: int| 0 <= row < lines.len() implies #[trigger] screen_chars(
            lines,
        )[row * (width + 1) + width] == '\n' by {
            if row < n {
                assert(0 <= row * (width + 1) + width < n * (width + 1));
                assert(screen_chars(above)[row * (width + 1) + width] == '\n');
            }
        }
    }
}

/// The characters of a display are those of its cells in reading order, with a
/// line feed behind each row.
pub proof fn law_chars_by_place(canvas: Canvas)
    requires
        canvas.wf(),
    ensures
        screen_chars(canvas.lines).len() == canvas.height * (canvas.width + 1),
        forall|row: int, col: int|
            0 <= row < canvas.height && 0 <= col < canvas.width ==> screen_chars(
                canvas.lines,
            )[row * (canvas.width + 1) + col] == (#[trigger] canvas.lines[row][col]).ch,
        forall|row: int|
            0 <= row < canvas.height ==> #[trigger] screen_chars(canvas.lines)[row * (canvas.width
                + 1) + canvas.width] == '\n',
{
    lemma_chars_by_place(canvas.lines, canvas.width);
}

/// The region that the arguments of `diff_region` describe.
pub open spec fn region_at(
    x: usize,
    y: usize,
    width: usize,
    height: usize,
    other_x: usize,
    other_y: usize,
) -> Region {
    Region {
        x: x as int,
        y: y as int,
        width: width as int,
        height: height as int,
        other_x: other_x as int,
        other_y: other_y as int,
    }
}

/// Whether `cursor` and `attr` are the place and the attributes of the last of
/// the cells that were drawn.
spec fn tracks(
    cursor: Option<(usize, usize)>,
    attr: Option<CellAttributes>,
    cells: Seq<Placed>,
) -> bool {
    if cells.len() == 0 {
        cursor is None && attr is None
    } else {
        &&& cursor matches Some((row, col)) && row == cells.last().row && col == cells.last().col
        &&& attr matches Some(attr) && attr@ == cells.last().cell.attrs
    }
}

/// Adds one character of text to a stream of changes.
fn push_text(changes: &mut Vec<Change>, c: char)
    ensures
        changes_view(final(changes)@) == append_text(changes_view(old(changes)@), c),
{
    let ghost out = changes_view(changes@);
    // avoid runs of single character Text entries; just append to the string.
    match changes.pop() {
        Some(Change::Text(mut prefix)) => {
            let ghost text = prefix@;
            prefix.push(c);
            changes.push(Change::from(prefix));
            proof {
                assert(out.last() == ChangeView::Text(text));
                assert(changes_view(changes@) =~= append_text(out, c));
            }
        },
        Some(last) => {
            changes.push(last);
            let mut text = String::new();
            text.push(c);
            changes.push(Change::from(text));
            proof {
                assert(out.last() == last@);
                assert(text@ =~= seq![c]);
                assert(changes_view(changes@) =~= append_text(out, c));
            }
        },
        None => {
            let mut text = String::new();
            text.push(c);
            changes.push(Change::from(text));
            proof {
                assert(text@ =~= seq![c]);
                assert(changes_view(changes@) =~= append_text(out, c));
            }
        },
    }
}

} // verus!
