//! The differences between two regions of cells.
use vstd::prelude::*;
use crate::canvas::Canvas;
use crate::cell::{inert, is_control, CellView};
use crate::change::ChangeView;
use crate::paint::{draw, lemma_draw, lemma_push, move_to};

verus! {

/// A rectangle of one display, and the place of a rectangle of the same size
/// in another.
#[verifier::ext_equal]
pub struct Region {
    pub x: int,
    pub y: int,
    pub width: int,
    pub height: int,
    /// The column of the other rectangle.
    pub other_x: int,
    /// The row of the other rectangle.
    pub other_y: int,
}

/// A cell together with the place that it is to be drawn at.
#[verifier::ext_equal]
pub struct Placed {
    pub row: int,
    pub col: int,
    pub cell: CellView,
}

impl Region {
    /// Whether the rectangles are inside of their displays.
    pub open spec fn within(self, canvas: Canvas, other: Canvas) -> bool {
        &&& 0 <= self.width && 0 <= self.height
        &&& 0 <= self.x && self.x + self.width <= canvas.width
        &&& 0 <= self.y && self.y + self.height <= canvas.height
        &&& 0 <= self.other_x && self.other_x + self.width <= other.width
        &&& 0 <= self.other_y && self.other_y + self.height <= other.height
    }

    /// Whether a place is inside of the first rectangle.
    pub open spec fn contains(self, row: int, col: int) -> bool {
        self.y <= row < self.y + self.height && self.x <= col < self.x + self.width
    }

    /// The cells of the other rectangle, within the first `n` columns of one
    /// row, that differ from what they are to replace.
    pub open spec fn row_diffs(
        self,
        line: Seq<CellView>,
        other: Seq<CellView>,
        row: int,
        n: int,
    ) -> Seq<Placed>
        decreases n,
    {
        if n <= 0 {
            seq![]
        } else {
            let left = self.row_diffs(line, other, row, n - 1);
            let col = self.x + n - 1;
            let cell = other[self.other_x + n - 1];
            if line[col] == cell {
                left
            } else {
                left.push(Placed { row, col, cell })
            }
        }
    }

    /// The cells of the other rectangle, within its first `n` rows, that
    /// differ from what they are to replace: row by row, each from left to
    /// right.
    pub open spec fn diffs(
        self,
        lines: Seq<Seq<CellView>>,
        other: Seq<Seq<CellView>>,
        n: int,
    ) -> Seq<Placed>
        decreases n,
    {
        if n <= 0 {
            seq![]
        } else {
            let row = self.y + n - 1;
            self.diffs(lines, other, n - 1) + self.row_diffs(
                lines[row],
                other[self.other_y + n - 1],
                row,
                self.width,
            )
        }
    }

    /// The rows of a display whose rectangle shows what the other one shows.
    pub open spec fn overlay(
        self,
        lines: Seq<Seq<CellView>>,
        other: Seq<Seq<CellView>>,
    ) -> Seq<Seq<CellView>> {
        Seq::new(
            lines.len(),
            |row: int|
                Seq::new(
                    lines[row].len(),
                    |col: int|
                        if self.contains(row, col) {
                            other[row - self.y + self.other_y][col - self.x + self.other_x]
                        } else {
                            lines[row][col]
                        },
                ),
        )
    }
}

/// The region that all of a display covers when its top left corner is at the
/// given column and row.
pub open spec fn whole_at(canvas: Canvas, x: int, y: int) -> Region {
    Region { x, y, width: canvas.width, height: canvas.height, other_x: 0, other_y: 0 }
}

/// The stream that draws the given cells.  The cursor is moved to each cell
/// that is not directly to the right of the one before, and the attributes are
/// set where they are not those of the one before.
pub open spec fn patch(cells: Seq<Placed>) -> Seq<ChangeView>
    decreases cells.len(),
{
    if cells.len() == 0 {
        seq![]
    } else {
        let before = cells.drop_last();
        let out = patch(before);
        let cell = cells.last();
        if before.len() == 0 {
            draw(out.push(move_to(cell.col, cell.row)), None, cell.cell)
        } else {
            let last = before.last();
            let placed = if last.row == cell.row && last.col == cell.col - 1 {
                out
            } else {
                out.push(move_to(cell.col, cell.row))
            };
            draw(placed, Some(last.cell.attrs), cell.cell)
        }
    }
}

/// The stream that makes the rectangle of one display look like that of the
/// other.
pub open spec fn region_patch(
    region: Region,
    lines: Seq<Seq<CellView>>,
    other: Seq<Seq<CellView>>,
) -> Seq<ChangeView> {
    patch(region.diffs(lines, other, region.height))
}

/// The rows of a display after cells were put at their places.
pub open spec fn place_all(lines: Seq<Seq<CellView>>, cells: Seq<Placed>) -> Seq<Seq<CellView>>
    decreases cells.len(),
{
    if cells.len() == 0 {
        lines
    } else {
        let before = place_all(lines, cells.drop_last());
        let cell = cells.last();
        before.update(cell.row, before[cell.row].update(cell.col, cell.cell))
    }
}

/// Whether the cells are to be placed inside of a display and show no control
/// characters.
pub open spec fn fits(cells: Seq<Placed>, canvas: Canvas) -> bool {
    forall|i: int|
        0 <= i < cells.len() ==> {
            let cell = #[trigger] cells[i];
            &&& 0 <= cell.row < canvas.height
            &&& 0 <= cell.col < canvas.width
            &&& !is_control(cell.cell.ch)
        }
}

proof fn lemma_fits_drop_last(cells: Seq<Placed>, canvas: Canvas)
    requires
        fits(cells, canvas),
        cells.len() > 0,
    ensures
        fits(cells.drop_last(), canvas),
{
    let before = cells.drop_last();
    assert(forall|i: int| 0 <= i < before.len() ==> #[trigger] before[i] == cells[i]);
}

proof fn lemma_fits_push(cells: Seq<Placed>, cell: Placed, canvas: Canvas)
    requires
        fits(cells, canvas),
        0 <= cell.row < canvas.height,
        0 <= cell.col < canvas.width,
        !is_control(cell.cell.ch),
    ensures
        fits(cells.push(cell), canvas),
{
    let more = cells.push(cell);
    assert(forall|i: int| 0 <= i < cells.len() ==> #[trigger] more[i] == cells[i]);
}

proof fn lemma_fits_concat(first: Seq<Placed>, second: Seq<Placed>, canvas: Canvas)
    requires
        fits(first, canvas),
        fits(second, canvas),
    ensures
        fits(first + second, canvas),
{
    let all = first + second;
    assert(forall|i: int| 0 <= i < first.len() ==> #[trigger] all[i] == first[i]);
    assert(forall|i: int|
        first.len() <= i < all.len() ==> #[trigger] all[i] == second[i - first.len()]);
}

/// The stream that draws cells puts each of them at its place and changes no
/// other cell.
pub(crate) proof fn lemma_patch(canvas: Canvas, cells: Seq<Placed>)
    requires
        canvas.wf(),
        fits(cells, canvas),
    ensures
        ({
            let drawn = canvas.apply_all(patch(cells));
            &&& drawn.same_size(canvas)
            &&& drawn.is_grid()
            &&& drawn.lines == place_all(canvas.lines, cells)
            &&& cells.len() == 0 ==> drawn == canvas
            &&& cells.len() > 0 ==> {
                &&& drawn.attrs == cells.last().cell.attrs
                &&& drawn.x == cells.last().col + 1
                &&& drawn.y == cells.last().row
            }
        }),
    decreases cells.len(),
{
    if cells.len() > 0 {
        let before = cells.drop_last();
        let cell = cells.last();
        assert(cell == cells[cells.len() - 1]);
        lemma_fits_drop_last(cells, canvas);
        lemma_patch(canvas, before);
        let out = patch(before);
        lemma_push(canvas, out, move_to(cell.col, cell.row));
        assert(inert(cell.cell.ch) == cell.cell.ch);
        if before.len() == 0 {
            lemma_draw(canvas, out.push(move_to(cell.col, cell.row)), None, cell.cell);
        } else {
            let last = before.last();
            assert(last == before[before.len() - 1]);
            let placed = if last.row == cell.row && last.col == cell.col - 1 {
                out
            } else {
                out.push(move_to(cell.col, cell.row))
            };
            lemma_draw(canvas, placed, Some(last.cell.attrs), cell.cell);
        }
    }
}

/// Cells placed in two lots.
proof fn lemma_place_concat(lines: Seq<Seq<CellView>>, first: Seq<Placed>, second: Seq<Placed>)
    ensures
        place_all(lines, first + second) == place_all(place_all(lines, first), second),
    decreases second.len(),
{
    let all = first + second;
    if second.len() == 0 {
        assert(all =~= first);
    } else {
        assert(all.drop_last() =~= first + second.drop_last());
        lemma_place_concat(lines, first, second.drop_last());
    }
}

/// Whether there are rows of cells for a display of the size of `canvas`.
spec fn shaped(lines: Seq<Seq<CellView>>, canvas: Canvas) -> bool {
    &&& lines.len() == canvas.height
    &&& forall|row: int|
        0 <= row < canvas.height ==> (#[trigger] lines[row]).len() == canvas.width
}

proof fn lemma_row_diffs(
    region: Region,
    canvas: Canvas,
    other: Canvas,
    lines: Seq<Seq<CellView>>,
    row: int,
    n: int,
)
    requires
        canvas.wf(),
        other.wf(),
        region.within(canvas, other),
        region.y <= row < region.y + region.height,
        0 <= n <= region.width,
        shaped(lines, canvas),
        lines[row] == canvas.lines[row],
    ensures
        ({
            let cells = region.row_diffs(
                canvas.lines[row],
                other.lines[row - region.y + region.other_y],
                row,
                n,
            );
            let placed = place_all(lines, cells);
            &&& fits(cells, canvas)
            &&& shaped(placed, canvas)
            &&& forall|r: int|
                0 <= r < canvas.height && r != row ==> #[trigger] placed[r] == lines[r]
            &&& forall|c: int|
                0 <= c < canvas.width ==> #[trigger] placed[row][c] == if region.x <= c < region.x
                    + n {
                    other.lines[row - region.y + region.other_y][c - region.x + region.other_x]
                } else {
                    canvas.lines[row][c]
                }
        }),
    decreases n,
{
    if n > 0 {
        lemma_row_diffs(region, canvas, other, lines, row, n - 1);
        let from = other.lines[row - region.y + region.other_y];
        let left = region.row_diffs(canvas.lines[row], from, row, n - 1);
        let cells = region.row_diffs(canvas.lines[row], from, row, n);
        let col = region.x + n - 1;
        let cell = from[region.other_x + n - 1];
        assert(!is_control(
            other.lines[row - region.y + region.other_y][region.other_x + n - 1].ch,
        ));
        if canvas.lines[row][col] != cell {
            let next = Placed { row, col, cell };
            assert(cells == left.push(next));
            assert(cells.drop_last() =~= left);
            lemma_fits_push(left, next, canvas);
        }
    }
}

proof fn lemma_diffs(region: Region, canvas: Canvas, other: Canvas, n: int)
    requires
        canvas.wf(),
        other.wf(),
        region.within(canvas, other),
        0 <= n <= region.height,
    ensures
        ({
            let cells = region.diffs(canvas.lines, other.lines, n);
            let placed = place_all(canvas.lines, cells);
            &&& fits(cells, canvas)
            &&& shaped(placed, canvas)
            &&& forall|r: int|
                0 <= r < canvas.height && !(region.y <= r < region.y + n) ==> #[trigger] placed[r]
                    == canvas.lines[r]
            &&& forall|r: int, c: int|
                region.y <= r < region.y + n && 0 <= c < canvas.width ==> #[trigger] placed[r][c]
                    == if region.contains(r, c) {
                    other.lines[r - region.y + region.other_y][c - region.x + region.other_x]
                } else {
                    canvas.lines[r][c]
                }
        }),
    decreases n,
{
    if n > 0 {
        lemma_diffs(region, canvas, other, n - 1);
        let above = region.diffs(canvas.lines, other.lines, n - 1);
        let row = region.y + n - 1;
        let lines = place_all(canvas.lines, above);
        lemma_row_diffs(region, canvas, other, lines, row, region.width);
        let here = region.row_diffs(
            canvas.lines[row],
            other.lines[region.other_y + n - 1],
            row,
            region.width,
        );
        lemma_place_concat(canvas.lines, above, here);
        let cells = region.diffs(canvas.lines, other.lines, n);
        assert(cells == above + here);
        lemma_fits_concat(above, here, canvas);
        let placed = place_all(canvas.lines, cells);
        assert forall|r: int, c: int|
            region.y <= r < region.y + n && 0 <= c < canvas.width implies #[trigger] placed[r][c]
            == if region.contains(r, c) {
            other.lines[r - region.y + region.other_y][c - region.x + region.other_x]
        } else {
            canvas.lines[r][c]
        } by {
            if r != row {
                assert(placed[r] == lines[r]);
                assert(placed[r][c] == lines[r][c]);
            }
        }
    }
}

/// The stream computed for a region makes that region look like the other one,
/// and changes no cell outside of it.
pub proof fn law_region_patch_reproduces(region: Region, canvas: Canvas, other: Canvas)
    requires
        canvas.wf(),
        other.wf(),
        region.within(canvas, other),
    ensures
        ({
            let drawn = canvas.apply_all(region_patch(region, canvas.lines, other.lines));
            &&& drawn.wf()
            &&& drawn.same_size(canvas)
            &&& drawn.lines == region.overlay(canvas.lines, other.lines)
            &&& forall|row: int, col: int|
                0 <= row < canvas.height && 0 <= col < canvas.width
                    ==> #[trigger] drawn.lines[row][col] == if region.y <= row < region.y
                    + region.height && region.x <= col < region.x + region.width {
                    other.lines[row - region.y + region.other_y][col - region.x + region.other_x]
                } else {
                    canvas.lines[row][col]
                }
        }),
{
    let cells = region.diffs(canvas.lines, other.lines, region.height);
    lemma_diffs(region, canvas, other, region.height);
    lemma_patch(canvas, cells);
    let drawn = canvas.apply_all(patch(cells));
    let overlay = region.overlay(canvas.lines, other.lines);
    assert forall|r: int| 0 <= r < canvas.height implies #[trigger] drawn.lines[r] =~= overlay[r] by {
        if region.y <= r < region.y + region.height {
            assert forall|c: int| 0 <= c < canvas.width implies drawn.lines[r][c]
                == overlay[r][c] by {}
        }
    }
    assert(drawn.lines =~= overlay);
    if cells.len() > 0 {
        assert(cells.last() == cells[cells.len() - 1]);
    }
    assert(drawn.is_inert()) by {
        assert forall|row: int, col: int|
            0 <= row < drawn.height && 0 <= col < drawn.width implies !is_control(
            (#[trigger] drawn.lines[row][col]).ch,
        ) by {
            if region.contains(row, col) {
                assert(!is_control(
                    other.lines[row - region.y + region.other_y][col - region.x
                        + region.other_x].ch,
                ));
            }
        }
    }
}

/// No change is needed just when the two regions look the same already.
pub proof fn law_region_patch_empty(region: Region, canvas: Canvas, other: Canvas)
    requires
        canvas.wf(),
        other.wf(),
        region.within(canvas, other),
    ensures
        region_patch(region, canvas.lines, other.lines).len() == 0 <==> region.overlay(
            canvas.lines,
            other.lines,
        ) == canvas.lines,
{
    let cells = region.diffs(canvas.lines, other.lines, region.height);
    let overlay = region.overlay(canvas.lines, other.lines);
    lemma_patch_length(cells);
    if cells.len() == 0 {
        law_region_patch_reproduces(region, canvas, other);
    }
    if overlay == canvas.lines {
        assert forall|r: int, c: int| #[trigger] region.contains(r, c) implies canvas.lines[r][c]
            == other.lines[r - region.y + region.other_y][c - region.x + region.other_x] by {
            assert(overlay[r][c] == canvas.lines[r][c]);
        }
        lemma_no_diffs(region, canvas, other, region.height);
    }
}

/// Once a region was made to look like another one, the stream that would make
/// it so is empty.
pub proof fn law_region_patch_settles(region: Region, canvas: Canvas, other: Canvas)
    requires
        canvas.wf(),
        other.wf(),
        region.within(canvas, other),
    ensures
        ({
            let drawn = canvas.apply_all(region_patch(region, canvas.lines, other.lines));
            region_patch(region, drawn.lines, other.lines).len() == 0
        }),
{
    law_region_patch_reproduces(region, canvas, other);
    let drawn = canvas.apply_all(region_patch(region, canvas.lines, other.lines));
    let again = region.overlay(drawn.lines, other.lines);
    assert forall|r: int| 0 <= r < drawn.height implies #[trigger] again[r] =~= drawn.lines[r] by {}
    assert(again =~= drawn.lines);
    law_region_patch_empty(region, drawn, other);
}

/// The stream for all of a display leads to the other display, where both have
/// the same size.
pub proof fn law_whole_patch_reproduces(canvas: Canvas, other: Canvas)
    requires
        canvas.wf(),
        other.wf(),
        canvas.same_size(other),
    ensures
        canvas.apply_all(
            region_patch(whole_at(canvas, 0, 0), canvas.lines, other.lines),
        ).lines == other.lines,
{
    let whole = whole_at(canvas, 0, 0);
    law_region_patch_reproduces(whole, canvas, other);
    let overlay = whole.overlay(canvas.lines, other.lines);
    assert forall|r: int| 0 <= r < canvas.height implies #[trigger] overlay[r] =~= other.lines[r] by {
        assert(canvas.lines[r].len() == canvas.width);
    }
    assert(overlay =~= other.lines);
}

/// The stream for a region has at most three changes for each of its cells.
pub proof fn law_region_patch_length(region: Region, canvas: Canvas, other: Canvas)
    requires
        region.within(canvas, other),
    ensures
        region_patch(region, canvas.lines, other.lines).len() <= 3 * (region.width
            * region.height),
{
    let cells = region.diffs(canvas.lines, other.lines, region.height);
    lemma_patch_length(cells);
    lemma_diffs_length(region, canvas.lines, other.lines, region.height);
}

proof fn lemma_patch_length(cells: Seq<Placed>)
    ensures
        patch(cells).len() == 0 <==> cells.len() == 0,
        patch(cells).len() <= 3 * cells.len(),
    decreases cells.len(),
{
    if cells.len() > 0 {
        lemma_patch_length(cells.drop_last());
    }
}

proof fn lemma_row_diffs_length(
    region: Region,
    line: Seq<CellView>,
    other: Seq<CellView>,
    row: int,
    n: int,
)
    requires
        0 <= n,
    ensures
        region.row_diffs(line, other, row, n).len() <= n,
    decreases n,
{
    if n > 0 {
        lemma_row_diffs_length(region, line, other, row, n - 1);
    }
}

proof fn lemma_diffs_length(
    region: Region,
    lines: Seq<Seq<CellView>>,
    other: Seq<Seq<CellView>>,
    n: int,
)
    requires
        0 <= n,
        0 <= region.width,
    ensures
        region.diffs(lines, other, n).len() <= region.width * n,
    decreases n,
{
    if n > 0 {
        let row = region.y + n - 1;
        lemma_diffs_length(region, lines, other, n - 1);
        lemma_row_diffs_length(
            region,
            lines[row],
            other[region.other_y + n - 1],
            row,
            region.width,
        );
        assert(region.width * n == region.width * (n - 1) + region.width) by (nonlinear_arith);
    }
}

proof fn lemma_no_row_diffs(
    region: Region,
    line: Seq<CellView>,
    other: Seq<CellView>,
    row: int,
    n: int,
)
    requires
        forall|c: int|
            region.x <= c < region.x + n ==> #[trigger] line[c] == other[c - region.x
                + region.other_x],
    ensures
        region.row_diffs(line, other, row, n).len() == 0,
    decreases n,
{
    if n > 0 {
        lemma_no_row_diffs(region, line, other, row, n - 1);
        assert(line[region.x + n - 1] == other[region.other_x + n - 1]);
    }
}

proof fn lemma_no_diffs(region: Region, canvas: Canvas, other: Canvas, n: int)
    requires
        n <= region.height,
        forall|r: int, c: int| #[trigger]
            region.contains(r, c) ==> canvas.lines[r][c] == other.lines[r - region.y
                + region.other_y][c - region.x + region.other_x],
    ensures
        region.diffs(canvas.lines, other.lines, n).len() == 0,
    decreases n,
{
    if n > 0 {
        let row = region.y + n - 1;
        lemma_no_diffs(region, canvas, other, n - 1);
        let line = canvas.lines[row];
        let from = other.lines[region.other_y + n - 1];
        assert forall|c: int| region.x <= c < region.x + region.width implies #[trigger] line[c]
            == from[c - region.x + region.other_x] by {
            assert(region.contains(row, c));
        }
        lemma_no_row_diffs(region, line, from, row, region.width);
    }
}

} // verus!
