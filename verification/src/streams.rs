//! What the streams that paint and patch a display are made of.
use vstd::prelude::*;
use crate::canvas::Canvas;
use crate::cell::{plain, AttributesView, CellView};
use crate::change::{ChangeView, Position};
use crate::diff::{patch, region_patch, Placed, Region};
use crate::effects::is_plain;
use crate::paint::{
    active_after, active_below, draw, draw_line, move_to, move_to_next_line, paint_lines, repaint,
};

verus! {

/// All texts of a stream one after the other.
pub open spec fn all_text(out: Seq<ChangeView>) -> Seq<char>
    decreases out.len(),
{
    if out.len() == 0 {
        seq![]
    } else {
        match out.last() {
            ChangeView::Text(text) => all_text(out.drop_last()) + text,
            _ => all_text(out.drop_last()),
        }
    }
}

/// The number of cursor moves in a stream.
pub open spec fn moves(out: Seq<ChangeView>) -> int
    decreases out.len(),
{
    if out.len() == 0 {
        0
    } else {
        moves(out.drop_last()) + if out.last() is CursorPosition {
            1int
        } else {
            0int
        }
    }
}

/// The number of times that a stream sets all attributes.
pub open spec fn sets(out: Seq<ChangeView>) -> int
    decreases out.len(),
{
    if out.len() == 0 {
        0
    } else {
        sets(out.drop_last()) + if out.last() is AllAttributes {
            1int
        } else {
            0int
        }
    }
}

/// Whether one change may directly follow another: texts are never split,
/// attributes are set right before a text, and no move is followed by another.
pub open spec fn may_follow(first: ChangeView, second: ChangeView) -> bool {
    match first {
        ChangeView::Attribute(_) => false,
        ChangeView::AllAttributes(_) => second is Text,
        ChangeView::Text(_) => !(second is Text),
        ChangeView::CursorPosition { .. } => second is AllAttributes || second is Text,
    }
}

/// Whether a stream has no needless changes from the given one on: each may
/// follow the one before, no text is empty, and no attribute is set on its own.
pub open spec fn is_tidy(out: Seq<ChangeView>, from: int) -> bool {
    &&& forall|i: int, j: int|
        from <= i < out.len() - 1 && j == i + 1 ==> #[trigger] may_follow(out[i], out[j])
    &&& forall|i: int|
        0 <= i < out.len() ==> !((#[trigger] out[i]) is Attribute)
    &&& forall|i: int|
        0 <= i < out.len() ==> ((#[trigger] out[i]) matches ChangeView::Text(text) ==> text.len()
            > 0)
}

/// The characters of some cells.
pub open spec fn chars(cells: Seq<CellView>) -> Seq<char> {
    Seq::new(cells.len(), |i: int| cells[i].ch)
}

/// The number of cells whose attributes are not those of the cell before, where
/// the first follows attributes `start`, if there are any.
pub open spec fn turns(start: Option<AttributesView>, cells: Seq<CellView>) -> int
    decreases cells.len(),
{
    if cells.len() == 0 {
        0
    } else {
        let before = if cells.len() == 1 {
            start
        } else {
            Some(cells[cells.len() - 2].attrs)
        };
        turns(start, cells.drop_last()) + if before == Some(cells.last().attrs) {
            0int
        } else {
            1int
        }
    }
}

proof fn lemma_push(out: Seq<ChangeView>, change: ChangeView, from: int)
    ensures
        moves(out.push(change)) == moves(out) + if change is CursorPosition {
            1int
        } else {
            0int
        },
        sets(out.push(change)) == sets(out) + if change is AllAttributes {
            1int
        } else {
            0int
        },
        all_text(out.push(change)) == match change {
            ChangeView::Text(text) => all_text(out) + text,
            _ => all_text(out),
        },
        is_tidy(out, from) && (out.len() > from ==> may_follow(out.last(), change))
            && !(change is Attribute) && (change matches ChangeView::Text(text) ==> text.len() > 0)
            && from >= 0 ==> is_tidy(out.push(change), from),
{
    let more = out.push(change);
    assert(more.drop_last() =~= out);
    if is_tidy(out, from) && (out.len() > from ==> may_follow(out.last(), change)) && !(
    change is Attribute) && (change matches ChangeView::Text(text) ==> text.len() > 0) && from
        >= 0 {
        assert forall|i: int, j: int| from <= i < more.len() - 1 && j == i + 1 implies
            #[trigger] may_follow(more[i], more[j]) by {
            if j < out.len() {
                assert(may_follow(out[i], out[j]));
            }
        }
    }
}

proof fn lemma_draw_shape(
    out: Seq<ChangeView>,
    active: Option<AttributesView>,
    cell: CellView,
    from: int,
)
    requires
        0 <= from <= out.len(),
        is_tidy(out, from),
        out.len() > from ==> !(out.last() is AllAttributes),
        out.len() == from > 0 ==> !(out.last() is Text),
    ensures
        ({
            let drawn = draw(out, active, cell);
            &&& all_text(drawn) == all_text(out).push(cell.ch)
            &&& moves(drawn) == moves(out)
            &&& sets(drawn) == sets(out) + if active == Some(cell.attrs) {
                0int
            } else {
                1int
            }
            &&& is_tidy(drawn, from)
            &&& drawn.len() >= out.len()
            &&& drawn.len() > from
            &&& drawn.last() is Text
            &&& forall|i: int| 0 <= i < out.len() - 1 ==> #[trigger] drawn[i] == out[i]
            &&& out.len() > 0 && !(out.last() is Text) ==> drawn[out.len() - 1] == out.last()
            &&& out.len() > 0 && out.last() is Text ==> drawn[out.len() - 1] is Text
        }),
{
    let set = ChangeView::AllAttributes(cell.attrs);
    lemma_push(out, set, from);
    let colored = if active == Some(cell.attrs) {
        out
    } else {
        out.push(set)
    };
    assert(all_text(out) + seq![cell.ch] =~= all_text(out).push(cell.ch));
    if colored.len() > 0 && colored.last() is Text {
        let text = colored.last()->Text_0;
        let before = colored.drop_last();
        assert(colored =~= before.push(ChangeView::Text(text)));
        lemma_push(before, ChangeView::Text(text), from);
        lemma_push(before, ChangeView::Text(text.push(cell.ch)), from);
        assert(all_text(before) + text.push(cell.ch) =~= (all_text(before) + text).push(cell.ch));
        assert(is_tidy(before, from)) by {
            assert forall|i: int, j: int| from <= i < before.len() - 1 && j == i + 1 implies
                #[trigger] may_follow(before[i], before[j]) by {
                assert(may_follow(colored[i], colored[j]));
            }
            assert(forall|i: int| 0 <= i < before.len() ==> #[trigger] before[i] == colored[i]);
        }
        if before.len() > from {
            let k = before.len() - 1;
            assert(colored[k] == before[k]);
            assert(may_follow(colored[k], colored[k + 1]));
        }
    } else {
        lemma_push(colored, ChangeView::Text(seq![cell.ch]), from);
    }
}

proof fn lemma_turns_push(start: Option<AttributesView>, cells: Seq<CellView>, cell: CellView)
    ensures
        turns(start, cells.push(cell)) == turns(start, cells) + if (if cells.len() == 0 {
            start
        } else {
            Some(cells.last().attrs)
        }) == Some(cell.attrs) {
            0int
        } else {
            1int
        },
        chars(cells.push(cell)) == chars(cells).push(cell.ch),
{
    assert(cells.push(cell).drop_last() =~= cells);
    assert(chars(cells.push(cell)) =~= chars(cells).push(cell.ch));
}

/// Drawing cells at the end of a stream, where the cells drawn so far are
/// `above`.
proof fn lemma_draw_line_shape(
    out: Seq<ChangeView>,
    above: Seq<CellView>,
    cells: Seq<CellView>,
    from: int,
)
    requires
        0 <= from <= out.len(),
        is_tidy(out, from),
        out.len() > from ==> !(out.last() is AllAttributes),
        out.len() == from > 0 ==> !(out.last() is Text),
    ensures
        ({
            let drawn = draw_line(out, active_after(plain(), above), cells);
            &&& sets(drawn) - turns(Some(plain()), above + cells) == sets(out) - turns(
                Some(plain()),
                above,
            )
            &&& all_text(out) == chars(above) ==> all_text(drawn) == chars(above + cells)
            &&& moves(drawn) == moves(out)
            &&& is_tidy(drawn, from)
            &&& drawn.len() >= out.len()
            &&& cells.len() > 0 ==> drawn.len() > from && drawn.last() is Text
            &&& cells.len() == 0 ==> drawn == out
            &&& forall|i: int| 0 <= i < out.len() - 1 ==> #[trigger] drawn[i] == out[i]
            &&& out.len() > 0 && !(out.last() is Text) ==> drawn[out.len() - 1] == out.last()
            &&& out.len() > 0 && out.last() is Text ==> drawn[out.len() - 1] is Text
            &&& forall|i: int|
                out.len() <= i < drawn.len() ==> !((#[trigger] drawn[i]) is CursorPosition)
        }),
    decreases cells.len(),
{
    let active = active_after(plain(), above);
    if cells.len() == 0 {
        assert(above + cells =~= above);
    } else {
        let left = cells.drop_last();
        let cell = cells.last();
        lemma_draw_line_shape(out, above, left, from);
        let drawn = draw_line(out, active, left);
        lemma_draw_shape(drawn, Some(active_after(active, left)), cell, from);
        lemma_turns_push(Some(plain()), above + left, cell);
        assert((above + left).push(cell) =~= above + cells);
        let more = draw(drawn, Some(active_after(active, left)), cell);
        assert(more == draw_line(out, active, cells));
        assert forall|i: int| 0 <= i < out.len() - 1 implies #[trigger] more[i] == out[i] by {
            assert(more[i] == drawn[i]);
        }
        assert forall|i: int| out.len() <= i < more.len() implies !((
        #[trigger] more[i]) is CursorPosition) by {
            if i < drawn.len() - 1 {
                assert(more[i] == drawn[i]);
            }
        }
    }
}

/// The cells of some rows in reading order.
pub open spec fn in_reading_order(lines: Seq<Seq<CellView>>) -> Seq<CellView>
    decreases lines.len(),
{
    if lines.len() == 0 {
        seq![]
    } else {
        in_reading_order(lines.drop_last()) + lines.last()
    }
}

/// The number of rows, but for the first, that start with other attributes than
/// the row above ends with.
pub open spec fn breaks(lines: Seq<Seq<CellView>>) -> int
    decreases lines.len(),
{
    if lines.len() <= 1 {
        0
    } else {
        breaks(lines.drop_last()) + if lines.last().first().attrs == lines[lines.len()
            - 2].last().attrs {
            0int
        } else {
            1int
        }
    }
}

proof fn lemma_paint_shape(lines: Seq<Seq<CellView>>)
    requires
        forall|row: int| 0 <= row < lines.len() ==> (#[trigger] lines[row]).len() > 0,
    ensures
        ({
            let out = paint_lines(lines);
            let cells = in_reading_order(lines);
            &&& out.len() >= 2
            &&& out[0] == move_to(0, 0)
            &&& out[1] == ChangeView::AllAttributes(plain())
            &&& is_tidy(out, 2)
            &&& all_text(out) == chars(cells)
            &&& sets(out) == 1 + turns(Some(plain()), cells)
            &&& moves(out) == 1 + breaks(lines)
            &&& lines.len() > 0 ==> out.len() > 2 && out.last() is Text
            &&& lines.len() == 0 ==> out.len() == 2
            &&& active_after(plain(), cells) == active_below(lines)
            &&& forall|i: int|
                2 <= i < out.len() && out[i] is CursorPosition ==> #[trigger] out[i]
                    == move_to_next_line()
        }),
    decreases lines.len(),
{
    let out = paint_lines(lines);
    if lines.len() == 0 {
        let start = Seq::<ChangeView>::empty();
        lemma_push(start, move_to(0, 0), 2);
        lemma_push(start.push(move_to(0, 0)), ChangeView::AllAttributes(plain()), 2);
        assert(out =~= start.push(move_to(0, 0)).push(ChangeView::AllAttributes(plain())));
        assert(chars(in_reading_order(lines)) =~= all_text(out));
    } else {
        let above = lines.drop_last();
        let line = lines.last();
        assert(line == lines[lines.len() - 1]);
        assert forall|row: int| 0 <= row < above.len() implies (#[trigger] above[row]).len()
            > 0 by {
            assert(above[row] == lines[row]);
        }
        lemma_paint_shape(above);
        let before = paint_lines(above);
        let active = active_below(above);
        let placed = if above.len() > 0 && line.first().attrs != active {
            before.push(move_to_next_line())
        } else {
            before
        };
        lemma_push(before, move_to_next_line(), 2);
        assert(above.len() > 0 ==> above.last() == lines[lines.len() - 2]);
        lemma_draw_line_shape(placed, in_reading_order(above), line, 2);
        assert(in_reading_order(lines) == in_reading_order(above) + line);
        assert forall|i: int| 2 <= i < out.len() && out[i] is CursorPosition implies #[trigger] out[i]
            == move_to_next_line() by {
            if i < placed.len() - 1 {
                assert(out[i] == placed[i]);
                assert(placed[i] == before[i]);
            } else if i == placed.len() - 1 {
                assert(out[i] == placed.last());
            }
        }
    }
}

proof fn lemma_reading_order(lines: Seq<Seq<CellView>>, width: int)
    requires
        0 <= width,
        forall|row: int| 0 <= row < lines.len() ==> (#[trigger] lines[row]).len() == width,
    ensures
        in_reading_order(lines).len() == lines.len() * width,
        forall|row: int, col: int|
            0 <= row < lines.len() && 0 <= col < width ==> in_reading_order(lines)[row * width
                + col] == #[trigger] lines[row][col],
    decreases lines.len(),
{
    if lines.len() > 0 {
        let above = lines.drop_last();
        let n = above.len() as int;
        assert forall|row: int| 0 <= row < above.len() implies (#[trigger] above[row]).len()
            == width by {
            assert(above[row] == lines[row]);
        }
        lemma_reading_order(above, width);
        assert((n + 1) * width == n * width + width) by (nonlinear_arith);
        assert(lines[n].len() == width);
        assert forall|row: int, col: int|
            0 <= row < lines.len() && 0 <= col < width implies in_reading_order(lines)[row * width
            + col] == #[trigger] lines[row][col] by {
            if row < n {
                assert(0 <= row * width + col < n * width) by (nonlinear_arith)
                    requires
                        0 <= row < n,
                        0 <= col < width,
                ;
                assert(above[row][col] == lines[row][col]);
            }
        }
    }
}

/// The stream that paints a display from scratch homes the cursor and resets the
/// attributes first, and puts the cursor at its place last.  In between, its
/// texts hold each cell once in reading order.  The attributes are set just where
/// a cell has others than the one before it, and the only moves are to the start
/// of the next row, one for each row that starts with other attributes than the
/// row above ends with.  Texts are never split.
pub proof fn law_repaint_is_tidy(canvas: Canvas)
    requires
        canvas.wf(),
        canvas.width > 0,
    ensures
        ({
            let out = repaint(canvas);
            let n = out.len() as int;
            let cells = in_reading_order(canvas.lines);
            &&& n >= 4
            &&& out[0] == ChangeView::CursorPosition {
                x: Position::Absolute(0),
                y: Position::Absolute(0),
            }
            &&& out[1] matches ChangeView::AllAttributes(start) && is_plain(start) && sets(out)
                == 1 + turns(Some(start), cells)
            &&& out[n - 1] == ChangeView::CursorPosition {
                x: Position::Absolute(canvas.x as usize),
                y: Position::Absolute(canvas.y as usize),
            }
            &&& forall|i: int|
                2 <= i < n - 1 && out[i] is CursorPosition ==> #[trigger] out[i]
                    == (ChangeView::CursorPosition {
                    x: Position::Absolute(0),
                    y: Position::Relative(1),
                })
            &&& moves(out) == 2 + breaks(canvas.lines)
            &&& is_tidy(out, 2)
            &&& cells.len() == canvas.height * canvas.width
            &&& all_text(out).len() == canvas.height * canvas.width
            &&& forall|row: int, col: int|
                0 <= row < canvas.height && 0 <= col < canvas.width ==> {
                    &&& cells[row * canvas.width + col] == #[trigger] canvas.lines[row][col]
                    &&& all_text(out)[row * canvas.width + col] == canvas.lines[row][col].ch
                }
        }),
{
    let lines = canvas.lines;
    let width = canvas.width;
    let painted = paint_lines(lines);
    let last = move_to(canvas.x, canvas.y);
    let out = repaint(canvas);
    lemma_paint_shape(lines);
    lemma_push(painted, last, 2);
    lemma_reading_order(lines, width);
    assert(out.len() >= 4);
    assert forall|i: int|
        2 <= i < out.len() - 1 && out[i] is CursorPosition implies #[trigger] out[i] == (
    ChangeView::CursorPosition { x: Position::Absolute(0), y: Position::Relative(1) }) by {
        assert(out[i] == painted[i]);
    }
    assert forall|row: int, col: int|
        0 <= row < canvas.height && 0 <= col < width implies all_text(out)[row * width + col] == (
    #[trigger] lines[row][col]).ch by {
        assert(0 <= row * width + col < canvas.height * width) by (nonlinear_arith)
            requires
                0 <= row < canvas.height,
                0 <= col < width,
        ;
    }
}

/// Whether one of the cells is to be placed at the given row and column.
pub open spec fn places(cells: Seq<Placed>, row: int, col: int) -> bool {
    exists|i: int| 0 <= i < cells.len() && (#[trigger] cells[i]).row == row && cells[i].col == col
}

/// Whether `cells` are just the differences between two regions: each is a cell
/// of the other region that is not what stands at its place, all such cells are
/// there, and they are in reading order.
pub open spec fn lists_differences(
    cells: Seq<Placed>,
    region: Region,
    canvas: Canvas,
    other: Canvas,
) -> bool {
    &&& forall|i: int|
        0 <= i < cells.len() ==> {
            let placed = #[trigger] cells[i];
            &&& region.y <= placed.row < region.y + region.height
            &&& region.x <= placed.col < region.x + region.width
            &&& placed.cell == other.lines[placed.row - region.y + region.other_y][placed.col
                - region.x + region.other_x]
            &&& placed.cell != canvas.lines[placed.row][placed.col]
        }
    &&& forall|i: int, j: int|
        0 <= i < j < cells.len() ==> {
            ||| (#[trigger] cells[i]).row < (#[trigger] cells[j]).row
            ||| cells[i].row == cells[j].row && cells[i].col < cells[j].col
        }
    &&& forall|row: int, col: int|
        region.y <= row < region.y + region.height && region.x <= col < region.x + region.width
            && canvas.lines[row][col] != other.lines[row - region.y + region.other_y][col - region.x
            + region.other_x] ==> #[trigger] places(cells, row, col)
}

proof fn lemma_row_lists(
    region: Region,
    line: Seq<CellView>,
    other: Seq<CellView>,
    row: int,
    n: int,
)
    requires
        0 <= n,
    ensures
        ({
            let cells = region.row_diffs(line, other, row, n);
            &&& forall|i: int|
                0 <= i < cells.len() ==> {
                    let placed = #[trigger] cells[i];
                    &&& placed.row == row
                    &&& region.x <= placed.col < region.x + n
                    &&& placed.cell == other[placed.col - region.x + region.other_x]
                    &&& placed.cell != line[placed.col]
                }
            &&& forall|i: int, j: int|
                0 <= i < j < cells.len() ==> (#[trigger] cells[i]).col < (#[trigger] cells[j]).col
            &&& forall|col: int|
                region.x <= col < region.x + n && line[col] != other[col - region.x
                    + region.other_x] ==> #[trigger] places(cells, row, col)
        }),
    decreases n,
{
    if n > 0 {
        lemma_row_lists(region, line, other, row, n - 1);
        let left = region.row_diffs(line, other, row, n - 1);
        let cells = region.row_diffs(line, other, row, n);
        assert forall|col: int|
            region.x <= col < region.x + n && line[col] != other[col - region.x
                + region.other_x] implies #[trigger] places(cells, row, col) by {
            if col < region.x + n - 1 {
                assert(places(left, row, col));
                let i = choose|i: int|
                    0 <= i < left.len() && (#[trigger] left[i]).row == row && left[i].col == col;
                assert(cells[i] == left[i]);
            } else {
                let last = cells[cells.len() - 1];
                assert(last.row == row && last.col == col);
            }
        }
    }
}

proof fn lemma_diffs_list(region: Region, canvas: Canvas, other: Canvas, n: int)
    requires
        0 <= n,
        0 <= region.width,
    ensures
        lists_differences(
            region.diffs(canvas.lines, other.lines, n),
            Region { height: n, ..region },
            canvas,
            other,
        ),
    decreases n,
{
    if n > 0 {
        lemma_diffs_list(region, canvas, other, n - 1);
        let row = region.y + n - 1;
        let line = canvas.lines[row];
        let from = other.lines[region.other_y + n - 1];
        lemma_row_lists(region, line, from, row, region.width);
        let above = region.diffs(canvas.lines, other.lines, n - 1);
        let here = region.row_diffs(line, from, row, region.width);
        let cells = region.diffs(canvas.lines, other.lines, n);
        assert(cells == above + here);
        assert(forall|i: int| 0 <= i < above.len() ==> #[trigger] cells[i] == above[i]);
        assert(forall|i: int|
            above.len() <= i < cells.len() ==> #[trigger] cells[i] == here[i - above.len()]);
        assert forall|r: int, col: int|
            region.y <= r < region.y + n && region.x <= col < region.x + region.width
                && canvas.lines[r][col] != other.lines[r - region.y + region.other_y][col - region.x
                + region.other_x] implies #[trigger] places(cells, r, col) by {
            if r < row {
                assert(places(above, r, col));
                let i = choose|i: int|
                    0 <= i < above.len() && (#[trigger] above[i]).row == r && above[i].col == col;
                assert(cells[i] == above[i]);
            } else {
                assert(line[col] != from[col - region.x + region.other_x]);
                assert(places(here, row, col));
                let i = choose|i: int|
                    0 <= i < here.len() && (#[trigger] here[i]).row == row && here[i].col == col;
                assert(cells[above.len() + i] == here[i]);
            }
        }
    }
}

/// The cells among some that are to be placed, without their places.
pub open spec fn unplaced(cells: Seq<Placed>) -> Seq<CellView> {
    Seq::new(cells.len(), |i: int| cells[i].cell)
}

/// The number of cells that are not placed directly to the right of the one
/// before.
pub open spec fn jumps(cells: Seq<Placed>) -> int
    decreases cells.len(),
{
    if cells.len() == 0 {
        0
    } else {
        let n = cells.len();
        jumps(cells.drop_last()) + if n > 1 && cells[n - 2].row == cells[n - 1].row && cells[n
            - 2].col + 1 == cells[n - 1].col {
            0int
        } else {
            1int
        }
    }
}

proof fn lemma_patch_shape(cells: Seq<Placed>)
    ensures
        ({
            let out = patch(cells);
            &&& is_tidy(out, 0)
            &&& all_text(out) == chars(unplaced(cells))
            &&& sets(out) == turns(None, unplaced(cells))
            &&& moves(out) == jumps(cells)
            &&& cells.len() == 0 ==> out.len() == 0
            &&& cells.len() > 0 ==> {
                &&& out.len() > 2
                &&& out.last() is Text
                &&& out[0] == move_to(cells[0].col, cells[0].row)
                &&& out[1] == ChangeView::AllAttributes(cells[0].cell.attrs)
            }
            &&& forall|i: int|
                0 <= i < out.len() && out[i] is CursorPosition ==> exists|k: int|
                    0 <= k < cells.len() && #[trigger] out[i] == move_to(
                        (#[trigger] cells[k]).col,
                        cells[k].row,
                    )
        }),
    decreases cells.len(),
{
    if cells.len() > 0 {
        let before = cells.drop_last();
        let cell = cells.last();
        let n = before.len() as int;
        lemma_patch_shape(before);
        let out = patch(before);
        let go = move_to(cell.col, cell.row);
        lemma_push(out, go, 0);
        assert(unplaced(cells) =~= unplaced(before).push(cell.cell));
        lemma_turns_push(None, unplaced(before), cell.cell);
        assert(cells[n] == cell);
        assert(n > 0 ==> before.last() == cells[n - 1]);
        let active = if n == 0 {
            None
        } else {
            Some(before.last().cell.attrs)
        };
        let placed = if n > 0 && before.last().row == cell.row && before.last().col == cell.col
            - 1 {
            out
        } else {
            out.push(go)
        };
        assert(n > 0 ==> unplaced(before).last() == before.last().cell);
        lemma_draw_shape(placed, active, cell.cell, 0);
        let more = patch(cells);
        assert(more == draw(placed, active, cell.cell));
        if n == 0 {
            assert(placed =~= seq![go]);
            assert(more =~= seq![
                go,
                ChangeView::AllAttributes(cell.cell.attrs),
                ChangeView::Text(seq![cell.cell.ch]),
            ]);
        } else {
            assert(more[0] == out[0]);
            assert(more[1] == out[1]);
            assert(before[0] == cells[0]);
        }
        assert forall|i: int| 0 <= i < more.len() && more[i] is CursorPosition implies exists|k: int|
            0 <= k < cells.len() && #[trigger] more[i] == move_to(
                (#[trigger] cells[k]).col,
                cells[k].row,
            ) by {
            if i < placed.len() && placed[i] == go && more[i] == go {
                assert(more[i] == move_to(cells[n].col, cells[n].row));
            } else {
                assert(i < out.len());
                assert(more[i] == out[i]);
                let k = choose|k: int|
                    0 <= k < before.len() && out[i] == move_to(
                        (#[trigger] before[k]).col,
                        before[k].row,
                    );
                assert(before[k] == cells[k]);
            }
        }
    }
}

/// The stream that makes a region look like another one draws just the cells that
/// differ, each once and in reading order.  It starts at the first of them.  The
/// cursor is moved just to those that are not directly to the right of the one
/// drawn before, the attributes are set just where they differ from those of the
/// one drawn before, and texts are never split.
pub proof fn law_region_patch_is_tidy(region: Region, canvas: Canvas, other: Canvas)
    requires
        0 <= region.width,
        0 <= region.height,
    ensures
        exists|cells: Seq<Placed>|
            {
                let out = region_patch(region, canvas.lines, other.lines);
                &&& #[trigger] lists_differences(cells, region, canvas, other)
                &&& all_text(out).len() == cells.len()
                &&& forall|i: int|
                    0 <= i < cells.len() ==> all_text(out)[i] == (#[trigger] cells[i]).cell.ch
                &&& sets(out) == turns(None, unplaced(cells))
                &&& moves(out) == jumps(cells)
                &&& is_tidy(out, 0)
                &&& cells.len() == 0 ==> out.len() == 0
                &&& cells.len() > 0 ==> {
                    &&& out.len() > 2
                    &&& out[0] == ChangeView::CursorPosition {
                        x: Position::Absolute(cells[0].col as usize),
                        y: Position::Absolute(cells[0].row as usize),
                    }
                    &&& out[1] == ChangeView::AllAttributes(cells[0].cell.attrs)
                    &&& out.last() is Text
                }
                &&& forall|i: int|
                    0 <= i < out.len() && out[i] is CursorPosition ==> exists|k: int|
                        0 <= k < cells.len() && #[trigger] out[i] == (ChangeView::CursorPosition {
                            x: Position::Absolute((#[trigger] cells[k]).col as usize),
                            y: Position::Absolute(cells[k].row as usize),
                        })
            },
{
    let cells = region.diffs(canvas.lines, other.lines, region.height);
    lemma_diffs_list(region, canvas, other, region.height);
    assert((Region { height: region.height, ..region }) == region);
    lemma_patch_shape(cells);
    assert(lists_differences(cells, region, canvas, other));
}

} // verus!
