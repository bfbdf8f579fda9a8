//! What a display shows, and what each change does to it.
use vstd::prelude::*;
use crate::cell::{blank, is_control, plain, written, AttributesView, CellView};
use crate::change::{ChangeView, Position};

verus! {

/// A display: its cells, its cursor and the attributes of the text that is
/// printed next.
#[verifier::ext_equal]
pub struct Canvas {
    pub width: int,
    pub height: int,
    /// The rows from top to bottom, each with its cells from left to right.
    pub lines: Seq<Seq<CellView>>,
    pub attrs: AttributesView,
    /// The column of the cursor.  It equals the width while the cursor waits
    /// behind the last column: the line is wrapped when the next character is
    /// printed.
    pub x: int,
    /// The row of the cursor.
    pub y: int,
}

/// A row of `width` blank cells.
pub open spec fn blank_line(width: int) -> Seq<CellView> {
    Seq::new(width as nat, |col: int| blank())
}

/// Whether a text holds no character but carriage returns.
pub open spec fn only_returns(text: Seq<char>) -> bool {
    forall|i: int| 0 <= i < text.len() ==> #[trigger] text[i] == '\r'
}

impl Canvas {
    /// A display of the given size that nothing was printed on.
    pub open spec fn cleared(width: int, height: int) -> Canvas {
        Canvas {
            width,
            height,
            lines: Seq::new(height as nat, |row: int| blank_line(width)),
            attrs: plain(),
            x: 0,
            y: 0,
        }
    }

    /// Whether there are `height` rows of `width` cells.
    pub open spec fn is_grid(self) -> bool {
        &&& self.lines.len() == self.height
        &&& forall|row: int|
            0 <= row < self.height ==> (#[trigger] self.lines[row]).len() == self.width
    }

    /// Whether no cell shows a control character.
    pub open spec fn is_inert(self) -> bool {
        forall|row: int, col: int|
            0 <= row < self.height && 0 <= col < self.width ==> !is_control(
                (#[trigger] self.lines[row][col]).ch,
            )
    }

    /// Whether the display has no cells at all.
    pub open spec fn is_empty(self) -> bool {
        self.width == 0
    }

    /// What holds of every display.
    pub open spec fn wf(self) -> bool {
        &&& self.width <= usize::MAX && self.height <= usize::MAX
        &&& self.is_grid()
        &&& self.is_inert()
        &&& if self.is_empty() {
            self.height == 0 && self.x == 0 && self.y == 0
        } else {
            0 < self.width && 0 <= self.x <= self.width && 0 <= self.y < self.height
        }
    }

    /// Whether `self` and `other` have the same size.
    pub open spec fn same_size(self, other: Canvas) -> bool {
        self.width == other.width && self.height == other.height
    }

    /// Every row moves up by one; the top row is lost and the bottom row is
    /// blank.
    pub open spec fn scrolled_up(self) -> Canvas {
        Canvas { lines: self.lines.skip(1).push(blank_line(self.width)), ..self }
    }

    /// The cursor goes to the next row; behind the last row the display
    /// scrolls instead.
    pub open spec fn line_feed(self) -> Canvas {
        if self.y + 1 >= self.height {
            self.scrolled_up()
        } else {
            Canvas { y: self.y + 1, ..self }
        }
    }

    /// The cell under the cursor is replaced, and the cursor goes one column
    /// to the right.
    pub open spec fn put(self, c: char) -> Canvas {
        Canvas {
            lines: self.lines.update(
                self.y,
                self.lines[self.y].update(self.x, written(c, self.attrs)),
            ),
            x: self.x + 1,
            ..self
        }
    }

    /// One character is printed.
    pub open spec fn print_char(self, c: char) -> Canvas {
        if c == '\r' {
            Canvas { x: 0, ..self }
        } else if c == '\n' {
            self.line_feed()
        } else if self.x >= self.width {
            (Canvas { x: 0, ..self.line_feed() }).put(c)
        } else {
            self.put(c)
        }
    }

    /// The characters of a text are printed one after the other.
    pub open spec fn print(self, text: Seq<char>) -> Canvas
        decreases text.len(),
    {
        if text.len() == 0 {
            self
        } else {
            self.print(text.drop_last()).print_char(text.last())
        }
    }

    /// The cursor moves.
    pub open spec fn move_cursor(self, x: Position, y: Position) -> Canvas {
        Canvas {
            x: x.resolve(self.x, self.width),
            y: y.resolve(self.y, self.height),
            ..self
        }
    }

    /// Whether a change can be made to this display: on one without cells
    /// nothing can be printed and the cursor cannot move.
    pub open spec fn accepts(self, change: ChangeView) -> bool {
        !self.is_empty() || match change {
            ChangeView::Attribute(_) => true,
            ChangeView::AllAttributes(_) => true,
            ChangeView::Text(text) => only_returns(text),
            ChangeView::CursorPosition { .. } => false,
        }
    }

    /// Whether each of the changes can be made to this display.
    pub open spec fn accepts_all(self, changes: Seq<ChangeView>) -> bool {
        forall|i: int| 0 <= i < changes.len() ==> self.accepts(#[trigger] changes[i])
    }

    /// A change is made.
    pub open spec fn apply(self, change: ChangeView) -> Canvas {
        match change {
            ChangeView::Attribute(change) => Canvas { attrs: self.attrs.changed(change), ..self },
            ChangeView::AllAttributes(attrs) => Canvas { attrs, ..self },
            ChangeView::Text(text) => self.print(text),
            ChangeView::CursorPosition { x, y } => self.move_cursor(x, y),
        }
    }

    /// The changes of a stream are made one after the other.
    pub open spec fn apply_all(self, changes: Seq<ChangeView>) -> Canvas
        decreases changes.len(),
    {
        if changes.len() == 0 {
            self
        } else {
            self.apply_all(changes.drop_last()).apply(changes.last())
        }
    }

    /// The display takes another size.  Cells that are in both sizes keep
    /// what they show, new cells are blank, and the cursor stays inside.
    pub open spec fn resized(self, width: int, height: int) -> Canvas {
        Canvas {
            width,
            height,
            lines: Seq::new(
                height as nat,
                |row: int|
                    Seq::new(
                        width as nat,
                        |col: int|
                            if row < self.height && col < self.width {
                                self.lines[row][col]
                            } else {
                                blank()
                            },
                    ),
            ),
            attrs: self.attrs,
            x: Position::NoChange.resolve(self.x, width),
            y: Position::NoChange.resolve(self.y, height),
        }
    }
}

/// Printing keeps a display well-formed and of the same size.
pub(crate) proof fn lemma_print_char_wf(canvas: Canvas, c: char)
    requires
        canvas.wf(),
        !canvas.is_empty() || c == '\r',
    ensures
        canvas.print_char(c).wf(),
        canvas.print_char(c).same_size(canvas),
        canvas.print_char(c).attrs == canvas.attrs,
{
    let fed = canvas.line_feed();
    if !canvas.is_empty() {
        assert(fed.wf());
    }
}

/// Printing a text leaves a display well-formed and of the same size, and the
/// attributes as they are.
pub proof fn law_print_keeps_wf(canvas: Canvas, text: Seq<char>)
    requires
        canvas.wf(),
        canvas.accepts(ChangeView::Text(text)),
    ensures
        canvas.print(text).wf(),
        canvas.print(text).same_size(canvas),
        canvas.print(text).attrs == canvas.attrs,
    decreases text.len(),
{
    if text.len() > 0 {
        law_print_keeps_wf(canvas, text.drop_last());
        lemma_print_char_wf(canvas.print(text.drop_last()), text.last());
    }
}

/// Every change that a display accepts leaves it well-formed: of the same
/// size, with the cursor inside, and with no control character in any cell.
pub proof fn law_apply_keeps_wf(canvas: Canvas, change: ChangeView)
    requires
        canvas.wf(),
        canvas.accepts(change),
    ensures
        canvas.apply(change).wf(),
        canvas.apply(change).same_size(canvas),
{
    match change {
        ChangeView::Text(text) => law_print_keeps_wf(canvas, text),
        _ => {},
    }
}

/// So does every stream of such changes.
pub proof fn law_apply_all_keeps_wf(canvas: Canvas, changes: Seq<ChangeView>)
    requires
        canvas.wf(),
        canvas.accepts_all(changes),
    ensures
        canvas.apply_all(changes).wf(),
        canvas.apply_all(changes).same_size(canvas),
    decreases changes.len(),
{
    if changes.len() > 0 {
        let before = changes.drop_last();
        assert forall|i: int| 0 <= i < before.len() implies canvas.accepts(
            #[trigger] before[i],
        ) by {
            assert(before[i] == changes[i]);
        }
        law_apply_all_keeps_wf(canvas, before);
        assert(canvas.accepts(changes[changes.len() - 1]));
        law_apply_keeps_wf(canvas.apply_all(before), changes.last());
    }
}

/// Making two streams of changes one after the other is making their
/// concatenation.
pub proof fn law_apply_all_concat(canvas: Canvas, first: Seq<ChangeView>, second: Seq<ChangeView>)
    ensures
        canvas.apply_all(first + second) == canvas.apply_all(first).apply_all(second),
    decreases second.len(),
{
    let all = first + second;
    if second.len() == 0 {
        assert(all =~= first);
    } else {
        assert(all.drop_last() =~= first + second.drop_last());
        law_apply_all_concat(canvas, first, second.drop_last());
    }
}

/// Printing two texts one after the other is printing their concatenation.
pub proof fn law_print_concat(canvas: Canvas, first: Seq<char>, second: Seq<char>)
    ensures
        canvas.print(first + second) == canvas.print(first).print(second),
    decreases second.len(),
{
    let all = first + second;
    if second.len() == 0 {
        assert(all =~= first);
    } else {
        assert(all.drop_last() =~= first + second.drop_last());
        law_print_concat(canvas, first, second.drop_last());
    }
}

/// Every control character but carriage return and line feed is printed as a
/// space.
pub proof fn law_control_prints_space(canvas: Canvas, c: char)
    requires
        is_control(c),
        c != '\r',
        c != '\n',
    ensures
        canvas.print_char(c) == canvas.print_char(' '),
{
}

/// A display that keeps its size keeps what it shows.
pub proof fn law_resize_to_same_size(canvas: Canvas)
    requires
        canvas.wf(),
        !canvas.is_empty(),
    ensures
        canvas.resized(canvas.width, canvas.height) == (Canvas {
            x: if canvas.x == canvas.width {
                canvas.width - 1
            } else {
                canvas.x
            },
            ..canvas
        }),
{
    let after = canvas.resized(canvas.width, canvas.height);
    assert forall|row: int| 0 <= row < canvas.height implies #[trigger] after.lines[row]
        =~= canvas.lines[row] by {}
    assert(after.lines =~= canvas.lines);
}

} // verus!
