//! The streams of changes that paint cells.
use vstd::prelude::*;
use crate::canvas::Canvas;
use crate::cell::{inert, is_control, plain, AttributesView, CellView};
use crate::change::{ChangeView, Position};

verus! {

/// A move of the cursor to the given column and row.
pub open spec fn move_to(x: int, y: int) -> ChangeView {
    ChangeView::CursorPosition {
        x: Position::Absolute(x as usize),
        y: Position::Absolute(y as usize),
    }
}

/// A move of the cursor to the start of the next row.
pub open spec fn move_to_next_line() -> ChangeView {
    ChangeView::CursorPosition { x: Position::Absolute(0), y: Position::Relative(1) }
}

/// The stream `out` with one more character of text at its end.
pub open spec fn append_text(out: Seq<ChangeView>, c: char) -> Seq<ChangeView> {
    if out.len() > 0 && out.last() is Text {
        out.drop_last().push(ChangeView::Text(out.last()->Text_0.push(c)))
    } else {
        out.push(ChangeView::Text(seq![c]))
    }
}

/// The stream `out` with a cell drawn at its end, where `active` are the
/// attributes in effect, if they are known.
pub open spec fn draw(out: Seq<ChangeView>, active: Option<AttributesView>, cell: CellView) -> Seq<
    ChangeView,
> {
    let colored = if active == Some(cell.attrs) {
        out
    } else {
        out.push(ChangeView::AllAttributes(cell.attrs))
    };
    append_text(colored, cell.ch)
}

/// The attributes in effect after `cells` were drawn.
pub open spec fn active_after(active: AttributesView, cells: Seq<CellView>) -> AttributesView {
    if cells.len() == 0 {
        active
    } else {
        cells.last().attrs
    }
}

/// The stream `out` with some cells drawn from left to right at its end.
pub open spec fn draw_line(
    out: Seq<ChangeView>,
    active: AttributesView,
    cells: Seq<CellView>,
) -> Seq<ChangeView>
    decreases cells.len(),
{
    if cells.len() == 0 {
        out
    } else {
        let left = cells.drop_last();
        draw(draw_line(out, active, left), Some(active_after(active, left)), cells.last())
    }
}

/// The attributes in effect after `lines` were painted from a fresh start.
pub open spec fn active_below(lines: Seq<Seq<CellView>>) -> AttributesView {
    if lines.len() == 0 {
        plain()
    } else {
        active_after(plain(), lines.last())
    }
}

/// The stream that paints `lines` from the top left corner on.  A row whose
/// first cell has the attributes of the last cell above it goes on with the
/// text of that row, which wraps; any other row is reached by a cursor move.
pub open spec fn paint_lines(lines: Seq<Seq<CellView>>) -> Seq<ChangeView>
    decreases lines.len(),
{
    if lines.len() == 0 {
        seq![move_to(0, 0), ChangeView::AllAttributes(plain())]
    } else {
        let above = lines.drop_last();
        let out = paint_lines(above);
        let active = active_below(above);
        let placed = if above.len() > 0 && lines.last().first().attrs != active {
            out.push(move_to_next_line())
        } else {
            out
        };
        draw_line(placed, active, lines.last())
    }
}

/// The stream that paints a display from scratch.
pub open spec fn repaint(canvas: Canvas) -> Seq<ChangeView> {
    paint_lines(canvas.lines).push(move_to(canvas.x, canvas.y))
}

proof fn lemma_append_text(canvas: Canvas, out: Seq<ChangeView>, c: char)
    ensures
        canvas.apply_all(append_text(out, c)) == canvas.apply_all(out).print_char(c),
{
    let longer = append_text(out, c);
    if out.len() > 0 && out.last() is Text {
        let text = out.last()->Text_0;
        assert(longer.drop_last() =~= out.drop_last());
        assert(text.push(c).drop_last() =~= text);
        assert(longer.last() == ChangeView::Text(text.push(c)));
        assert(out.last() == ChangeView::Text(text));
    } else {
        assert(longer.drop_last() =~= out);
        let here = canvas.apply_all(out);
        assert(seq![c].drop_last() =~= Seq::<char>::empty());
        assert(here.print(seq![c]) == here.print(seq![c].drop_last()).print_char(c));
    }
}

pub(crate) proof fn lemma_push(canvas: Canvas, out: Seq<ChangeView>, change: ChangeView)
    ensures
        canvas.apply_all(out.push(change)) == canvas.apply_all(out).apply(change),
{
    assert(out.push(change).drop_last() =~= out);
}

/// Drawing a cell sets the attributes and prints the character.
pub(crate) proof fn lemma_draw(
    canvas: Canvas,
    out: Seq<ChangeView>,
    active: Option<AttributesView>,
    cell: CellView,
)
    requires
        active is Some ==> canvas.apply_all(out).attrs == active->0,
    ensures
        canvas.apply_all(draw(out, active, cell)) == (Canvas {
            attrs: cell.attrs,
            ..canvas.apply_all(out)
        }).print_char(cell.ch),
{
    let colored = if active == Some(cell.attrs) {
        out
    } else {
        out.push(ChangeView::AllAttributes(cell.attrs))
    };
    lemma_push(canvas, out, ChangeView::AllAttributes(cell.attrs));
    lemma_append_text(canvas, colored, cell.ch);
}

/// Whether the next character is printed at the start of row `row`.
spec fn at_line_start(canvas: Canvas, row: int) -> bool {
    ||| canvas.x == 0 && canvas.y == row
    ||| canvas.x == canvas.width && canvas.y == row - 1
}

/// Drawing the cells of a row puts them into that row.
proof fn lemma_draw_line(
    canvas: Canvas,
    out: Seq<ChangeView>,
    active: AttributesView,
    cells: Seq<CellView>,
    row: int,
)
    requires
        canvas.apply_all(out).is_grid(),
        canvas.apply_all(out).attrs == active,
        at_line_start(canvas.apply_all(out), row),
        0 <= row < canvas.apply_all(out).height,
        0 < cells.len() <= canvas.apply_all(out).width,
        forall|i: int| 0 <= i < cells.len() ==> !is_control((#[trigger] cells[i]).ch),
    ensures
        ({
            let before = canvas.apply_all(out);
            canvas.apply_all(draw_line(out, active, cells)) == (Canvas {
                lines: before.lines.update(
                    row,
                    cells + before.lines[row].skip(cells.len() as int),
                ),
                attrs: cells.last().attrs,
                x: cells.len() as int,
                y: row,
                ..before
            })
        }),
    decreases cells.len(),
{
    let before = canvas.apply_all(out);
    let left = cells.drop_last();
    let cell = cells.last();
    let out_left = draw_line(out, active, left);
    assert(cell == cells[cells.len() - 1]);
    assert(inert(cell.ch) == cell.ch);
    if left.len() == 0 {
        assert(out_left == out);
        lemma_draw(canvas, out, Some(active), cell);
        let after = canvas.apply_all(draw_line(out, active, cells));
        assert(after.lines[row] =~= cells + before.lines[row].skip(1));
        assert(after.lines =~= before.lines.update(row, cells + before.lines[row].skip(1)));
    } else {
        lemma_draw_line(canvas, out, active, left, row);
        lemma_draw(canvas, out_left, Some(active_after(active, left)), cell);
        let after = canvas.apply_all(draw_line(out, active, cells));
        let m = cells.len() as int;
        assert(after.lines[row] =~= cells + before.lines[row].skip(m));
        assert(after.lines =~= before.lines.update(row, cells + before.lines[row].skip(m)));
    }
}

/// Painting rows from scratch puts them at the top of any display.
proof fn lemma_paint_lines(canvas: Canvas, lines: Seq<Seq<CellView>>)
    requires
        canvas.wf(),
        !canvas.is_empty(),
        lines.len() <= canvas.height,
        forall|row: int|
            0 <= row < lines.len() ==> (#[trigger] lines[row]).len() == canvas.width,
        forall|row: int, col: int|
            0 <= row < lines.len() && 0 <= col < canvas.width ==> !is_control(
                (#[trigger] lines[row][col]).ch,
            ),
    ensures
        ({
            let painted = canvas.apply_all(paint_lines(lines));
            &&& painted.same_size(canvas)
            &&& painted.lines =~= lines + canvas.lines.skip(lines.len() as int)
            &&& painted.attrs == active_below(lines)
            &&& lines.len() == 0 ==> painted.x == 0 && painted.y == 0
            &&& lines.len() > 0 ==> painted.x == canvas.width && painted.y == lines.len() - 1
        }),
    decreases lines.len(),
{
    if lines.len() == 0 {
        let start = seq![move_to(0, 0), ChangeView::AllAttributes(plain())];
        assert(start =~= Seq::<ChangeView>::empty().push(move_to(0, 0)).push(
            ChangeView::AllAttributes(plain()),
        ));
        lemma_push(canvas, Seq::empty(), move_to(0, 0));
        lemma_push(
            canvas,
            Seq::<ChangeView>::empty().push(move_to(0, 0)),
            ChangeView::AllAttributes(plain()),
        );
        assert(lines + canvas.lines.skip(0) =~= canvas.lines);
    } else {
        let above = lines.drop_last();
        let line = lines.last();
        let row = lines.len() - 1;
        assert(line == lines[row]);
        assert forall|r: int| 0 <= r < above.len() implies (#[trigger] above[r]).len()
            == canvas.width by {
            assert(above[r] == lines[r]);
        }
        assert forall|r: int, col: int|
            0 <= r < above.len() && 0 <= col < canvas.width implies !is_control(
            (#[trigger] above[r][col]).ch,
        ) by {
            assert(above[r][col] == lines[r][col]);
        }
        lemma_paint_lines(canvas, above);
        let out = paint_lines(above);
        let active = active_below(above);
        let placed = if above.len() > 0 && line.first().attrs != active {
            out.push(move_to_next_line())
        } else {
            out
        };
        lemma_push(canvas, out, move_to_next_line());
        let before = canvas.apply_all(placed);
        assert(before.lines == above + canvas.lines.skip(above.len() as int));
        assert forall|r: int| 0 <= r < before.height implies (#[trigger] before.lines[r]).len()
            == before.width by {
            if r < above.len() {
                assert(before.lines[r] == above[r]);
            } else {
                assert(before.lines[r] == canvas.lines[r]);
            }
        }
        assert forall|i: int| 0 <= i < line.len() implies !is_control((#[trigger] line[i]).ch) by {
            assert(line[i] == lines[row][i]);
        }
        lemma_draw_line(canvas, placed, active, line, row);
        let painted = canvas.apply_all(paint_lines(lines));
        assert(line + before.lines[row].skip(line.len() as int) =~= line);
        assert(painted.lines =~= lines + canvas.lines.skip(lines.len() as int));
    }
}

/// Two streams one after the other, where a text at the end of the first and one
/// at the start of the second become one.
pub open spec fn join(out: Seq<ChangeView>, more: Seq<ChangeView>) -> Seq<ChangeView> {
    if out.len() > 0 && out.last() is Text && more.len() > 0 && more.first() is Text {
        out.drop_last().push(
            ChangeView::Text(out.last()->Text_0 + more.first()->Text_0),
        ) + more.skip(1)
    } else {
        out + more
    }
}

proof fn lemma_join_push(out: Seq<ChangeView>, more: Seq<ChangeView>, change: ChangeView)
    requires
        more.len() > 0,
    ensures
        join(out, more.push(change)) == join(out, more).push(change),
{
    assert(more.push(change).first() == more.first());
    assert(join(out, more.push(change)) =~= join(out, more).push(change));
}

proof fn lemma_join_append_text(out: Seq<ChangeView>, more: Seq<ChangeView>, c: char)
    requires
        more.len() > 0,
    ensures
        join(out, append_text(more, c)) == append_text(join(out, more), c),
{
    let joined = join(out, more);
    let longer = append_text(more, c);
    if more.last() is Text {
        let text = more.last()->Text_0;
        assert(more.last() == ChangeView::Text(text));
        if more.len() == 1 && out.len() > 0 && out.last() is Text {
            let before = out.last()->Text_0;
            assert((before + text).push(c) =~= before + text.push(c));
            assert(joined.drop_last() =~= out.drop_last());
            assert(longer.first() == ChangeView::Text(text.push(c)));
            assert(join(out, longer) =~= append_text(joined, c));
        } else {
            if more.len() > 1 {
                assert(longer.first() == more.first());
            }
            assert(joined.last() == more.last());
            assert(join(out, longer) =~= append_text(joined, c));
        }
    } else {
        assert(joined.last() == more.last());
        lemma_join_push(out, more, ChangeView::Text(seq![c]));
    }
}

/// Drawing a row at the end of a stream is drawing it on its own and joining
/// the two streams.  A row drawn on its own ends with text, and it starts with
/// text just when its first cell has the attributes in effect.
pub(crate) proof fn lemma_draw_line_joins(
    out: Seq<ChangeView>,
    active: AttributesView,
    cells: Seq<CellView>,
)
    requires
        cells.len() > 0,
    ensures
        draw_line(out, active, cells) == join(out, draw_line(seq![], active, cells)),
        draw_line(seq![], active, cells).len() > 0,
        draw_line(seq![], active, cells).last() is Text,
        draw_line(seq![], active, cells).first() is Text <==> cells.first().attrs == active,
    decreases cells.len(),
{
    let left = cells.drop_last();
    let cell = cells.last();
    let own = draw_line(seq![], active, left);
    let more = draw_line(seq![], active, cells);
    let set = ChangeView::AllAttributes(cell.attrs);
    if left.len() == 0 {
        assert(cell == cells.first());
        let text = ChangeView::Text(seq![cell.ch]);
        if cell.attrs == active {
            assert(more =~= seq![text]);
            if out.len() > 0 && out.last() is Text {
                assert(out.last()->Text_0.push(cell.ch) =~= out.last()->Text_0 + seq![cell.ch]);
            }
        } else {
            assert(more =~= seq![set, text]);
            assert(more.first() == set);
        }
        assert(draw_line(out, active, left) == out);
        assert(draw_line(out, active, cells) =~= join(out, more));
    } else {
        lemma_draw_line_joins(out, active, left);
        assert(left.first() == cells.first());
        lemma_join_push(out, own, set);
        lemma_join_append_text(out, own, cell.ch);
        lemma_join_append_text(out, own.push(set), cell.ch);
        assert(own.push(set).first() == own.first());
        if active_after(active, left) == cell.attrs {
            assert(more == append_text(own, cell.ch));
            if own.len() > 1 {
                assert(more.first() == own.first());
            }
        } else {
            assert(more == append_text(own.push(set), cell.ch));
            assert(more.first() == own.first());
        }
    }
}

/// Whether a display shows what `canvas` shows: the same cells, and the cursor
/// at the same place, or in the last column where it waits behind it.
pub open spec fn shows(display: Canvas, canvas: Canvas) -> bool {
    &&& display.same_size(canvas)
    &&& display.lines == canvas.lines
    &&& display.y == canvas.y
    &&& display.x == canvas.x || (canvas.x == canvas.width && display.x == canvas.width - 1)
}

/// The stream that paints a display from scratch makes any display of that
/// size show the same, whatever it showed before.  The two are equal in all
/// where the cursor does not wait behind the last column and the attributes of
/// the text printed next are those of the last cell.
pub proof fn law_repaint_reproduces(canvas: Canvas, display: Canvas)
    requires
        canvas.wf(),
        !canvas.is_empty(),
        display.wf(),
        display.same_size(canvas),
    ensures
        ({
            let shown = display.apply_all(repaint(canvas));
            &&& shows(shown, canvas)
            &&& shown.width == canvas.width
            &&& shown.height == canvas.height
            &&& shown.lines == canvas.lines
            &&& shown.attrs == canvas.lines[canvas.height - 1][canvas.width - 1].attrs
            &&& canvas.x < canvas.width ==> shown.x == canvas.x
            &&& canvas.x == canvas.width ==> shown.x == canvas.width - 1
            &&& shown.y == canvas.y
            &&& canvas.x < canvas.width && canvas.attrs == active_below(canvas.lines) ==> shown
                == canvas
        }),
{
    lemma_paint_lines(display, canvas.lines);
    lemma_push(display, paint_lines(canvas.lines), move_to(canvas.x, canvas.y));
    assert(canvas.lines + display.lines.skip(canvas.height) =~= canvas.lines);
}

} // verus!
