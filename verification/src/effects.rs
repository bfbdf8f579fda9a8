//! What each change does to a display, told by its cells and coordinates.
use vstd::prelude::*;
use crate::canvas::{law_print_concat, Canvas};
use vstd::std_specs::cmp::PartialEqSpec;
use crate::cell::{
    AttributeChange, AttributeChangeView, AttributesView, Blink, Cell, CellAttributes, CellView,
    Hyperlink, Intensity, Underline,
};
use crate::change::{Change, ChangeView, Position};
use crate::color::ColorAttribute;

verus! {

/// Whether no attribute is set.
pub open spec fn is_plain(attrs: AttributesView) -> bool {
    &&& attrs.intensity == Intensity::Normal
    &&& attrs.underline == Underline::Off
    &&& attrs.blink == Blink::Off
    &&& !attrs.italic
    &&& !attrs.reverse
    &&& !attrs.strikethrough
    &&& !attrs.invisible
    &&& attrs.foreground == ColorAttribute::Default
    &&& attrs.background == ColorAttribute::Default
    &&& attrs.hyperlink is None
}

/// Whether a cell shows a space with no attribute set.
pub open spec fn is_plain_space(cell: CellView) -> bool {
    cell.ch == ' ' && is_plain(cell.attrs)
}

/// A carriage return puts the cursor into the first column.  It changes no
/// cell, no attribute and not the row.
pub proof fn law_carriage_return(canvas: Canvas)
    requires
        canvas.wf(),
    ensures
        ({
            let after = canvas.apply(ChangeView::Text(seq!['\r']));
            &&& after.x == 0
            &&& after.y == canvas.y
            &&& after.attrs == canvas.attrs
            &&& after.width == canvas.width
            &&& after.height == canvas.height
            &&& after.lines == canvas.lines
        }),
{
    lemma_single(canvas, '\r');
}

/// A line feed above the bottom row puts the cursor one row down and changes
/// nothing else.  In the bottom row it moves each row up by exactly one instead:
/// the cell at a place is the one that was directly below it, the bottom row is
/// of plain spaces, and the cursor and the attributes stay.
pub proof fn law_line_feed(canvas: Canvas)
    requires
        canvas.wf(),
        canvas.width > 0,
    ensures
        ({
            let after = canvas.apply(ChangeView::Text(seq!['\n']));
            &&& after.x == canvas.x
            &&& after.attrs == canvas.attrs
            &&& after.width == canvas.width
            &&& after.height == canvas.height
            &&& after.lines.len() == canvas.height
            &&& forall|row: int|
                0 <= row < canvas.height ==> (#[trigger] after.lines[row]).len() == canvas.width
            &&& canvas.y < canvas.height - 1 ==> {
                &&& after.y == canvas.y + 1
                &&& after.lines == canvas.lines
            }
            &&& canvas.y == canvas.height - 1 ==> {
                &&& after.y == canvas.y
                &&& forall|row: int, col: int|
                    0 <= row < canvas.height - 1 && 0 <= col < canvas.width
                        ==> #[trigger] after.lines[row][col] == canvas.lines[row + 1][col]
                &&& forall|col: int|
                    0 <= col < canvas.width ==> is_plain_space(
                        #[trigger] after.lines[canvas.height - 1][col],
                    )
            }
        }),
{
    lemma_single(canvas, '\n');
    if canvas.y == canvas.height - 1 {
        let after = canvas.apply(ChangeView::Text(seq!['\n']));
        assert forall|row: int| 0 <= row < canvas.height implies (#[trigger] after.lines[row]).len()
            == canvas.width by {
            if row < canvas.height - 1 {
                assert(after.lines[row] == canvas.lines[row + 1]);
            }
        }
    }
}

/// Whether a cell shows a printed character with the given attributes: the
/// character itself, or a space for the code points below 0x20 and from 0x7f to
/// 0x9f.
pub open spec fn is_print_of(cell: CellView, c: char, attrs: AttributesView) -> bool {
    &&& cell.attrs == attrs
    &&& 0x20 <= c as int <= 0x7e || c as int >= 0xa0 ==> cell.ch == c
    &&& c as int <= 0x1f || 0x7f <= c as int <= 0x9f ==> cell.ch == ' '
}

/// A character is printed into the cell under the cursor, with the attributes
/// in effect, and the cursor goes one column to the right, behind the last
/// column at most.  No other cell changes.
pub proof fn law_print_under_cursor(canvas: Canvas, c: char)
    requires
        canvas.wf(),
        canvas.x < canvas.width,
        c != '\r',
        c != '\n',
    ensures
        ({
            let after = canvas.apply(ChangeView::Text(seq![c]));
            &&& after.x == canvas.x + 1
            &&& after.y == canvas.y
            &&& after.attrs == canvas.attrs
            &&& after.width == canvas.width
            &&& after.height == canvas.height
            &&& after.lines.len() == canvas.height
            &&& forall|row: int|
                0 <= row < canvas.height ==> (#[trigger] after.lines[row]).len() == canvas.width
            &&& is_print_of(after.lines[canvas.y][canvas.x], c, canvas.attrs)
            &&& forall|row: int, col: int|
                0 <= row < canvas.height && 0 <= col < canvas.width && !(row == canvas.y && col
                    == canvas.x) ==> #[trigger] after.lines[row][col] == canvas.lines[row][col]
        }),
{
    lemma_single(canvas, c);
    assert(canvas.lines[canvas.y].len() == canvas.width);
}

/// A character that is printed while the cursor waits behind the last column
/// goes to the start of the next row, as if carriage return and line feed had
/// been printed before it.
pub proof fn law_print_wraps(canvas: Canvas, c: char)
    requires
        canvas.wf(),
        canvas.width > 0,
        canvas.x == canvas.width,
        c != '\r',
        c != '\n',
    ensures
        ({
            let after = canvas.apply(ChangeView::Text(seq![c]));
            &&& after == canvas.apply(ChangeView::Text(seq!['\r'])).apply(
                ChangeView::Text(seq!['\n']),
            ).apply(ChangeView::Text(seq![c]))
            &&& after.x == 1
            &&& after.y == if canvas.y < canvas.height - 1 {
                canvas.y + 1
            } else {
                canvas.y
            }
            &&& after.attrs == canvas.attrs
            &&& after.width == canvas.width
            &&& after.height == canvas.height
            &&& is_print_of(after.lines[after.y][0], c, canvas.attrs)
            &&& canvas.y < canvas.height - 1 ==> forall|row: int, col: int|
                0 <= row < canvas.height && 0 <= col < canvas.width && !(row == canvas.y + 1 && col
                    == 0) ==> #[trigger] after.lines[row][col] == canvas.lines[row][col]
            &&& canvas.y == canvas.height - 1 ==> {
                &&& forall|row: int, col: int|
                    0 <= row < canvas.height - 1 && 0 <= col < canvas.width
                        ==> #[trigger] after.lines[row][col] == canvas.lines[row + 1][col]
                &&& forall|col: int|
                    1 <= col < canvas.width ==> is_plain_space(
                        #[trigger] after.lines[canvas.height - 1][col],
                    )
            }
        }),
{
    let returned = canvas.apply(ChangeView::Text(seq!['\r']));
    let fed = returned.apply(ChangeView::Text(seq!['\n']));
    law_carriage_return(canvas);
    assert(returned.wf());
    law_line_feed(returned);
    lemma_single(canvas, '\r');
    lemma_single(returned, '\n');
    lemma_single(canvas, c);
    lemma_single(fed, c);
    assert(fed == (Canvas { x: 0, ..canvas.line_feed() }));
    assert(fed.is_inert()) by {
        crate::canvas::law_apply_keeps_wf(returned, ChangeView::Text(seq!['\n']));
    }
    law_print_under_cursor(fed, c);
}

proof fn lemma_single(canvas: Canvas, c: char)
    ensures
        canvas.apply(ChangeView::Text(seq![c])) == canvas.print_char(c),
{
    assert(seq![c].drop_last() =~= seq![]);
    assert(canvas.print(seq![c]) == canvas.print(seq![c].drop_last()).print_char(c));
}

/// A text is printed character by character: an empty text changes nothing, and
/// one more character at its end is printed after the others.
pub proof fn law_text_is_its_characters(canvas: Canvas, text: Seq<char>, c: char)
    ensures
        canvas.apply(ChangeView::Text(seq![])) == canvas,
        canvas.apply(ChangeView::Text(text.push(c))) == canvas.apply(ChangeView::Text(text)).apply(
            ChangeView::Text(seq![c]),
        ),
{
    assert(text.push(c) =~= text + seq![c]);
    law_print_concat(canvas, text, seq![c]);
}

/// A stream is made change by change: an empty one changes nothing, and one more
/// change at its end is made after the others.
pub proof fn law_stream_is_its_changes(
    canvas: Canvas,
    changes: Seq<ChangeView>,
    change: ChangeView,
)
    ensures
        canvas.apply_all(seq![]) == canvas,
        canvas.apply_all(changes.push(change)) == canvas.apply_all(changes).apply(change),
{
    assert(changes.push(change).drop_last() =~= changes);
}

/// A display with cells takes every change.  One without takes those that touch
/// no cell and no place: changes of attributes, and texts of carriage returns.
pub proof fn law_what_a_display_takes(canvas: Canvas, change: ChangeView)
    requires
        canvas.wf(),
    ensures
        canvas.accepts(change) <==> {
            ||| canvas.width > 0
            ||| change is Attribute
            ||| change is AllAttributes
            ||| change matches ChangeView::Text(text) && forall|i: int|
                0 <= i < text.len() ==> #[trigger] text[i] == '\r'
        },
{
}

/// Two sets of attributes hold the same, and so compare equal, just when each of
/// the ten attributes is the same, where links are the same by their target.
pub proof fn law_attributes_are_told_apart(a: CellAttributes, b: CellAttributes)
    ensures
        a@ == b@ <==> {
            &&& a.intensity == b.intensity
            &&& a.underline == b.underline
            &&& a.blink == b.blink
            &&& a.italic == b.italic
            &&& a.reverse == b.reverse
            &&& a.strikethrough == b.strikethrough
            &&& a.invisible == b.invisible
            &&& a.foreground == b.foreground
            &&& a.background == b.background
            &&& match (a.hyperlink, b.hyperlink) {
                (Some(one), Some(other)) => one.uri@ == other.uri@,
                (None, None) => true,
                _ => false,
            }
        },
        a.eq_spec(&b) <==> a@ == b@,
{
}

/// What is said of attributes and changes is said of what they hold: the view of
/// each has the same parts.
pub proof fn law_views_hold_the_parts(
    attrs: CellAttributes,
    link: Hyperlink,
    set: AttributeChange,
    change: Change,
)
    ensures
        attrs@.intensity == attrs.intensity,
        attrs@.underline == attrs.underline,
        attrs@.blink == attrs.blink,
        attrs@.italic == attrs.italic,
        attrs@.reverse == attrs.reverse,
        attrs@.strikethrough == attrs.strikethrough,
        attrs@.invisible == attrs.invisible,
        attrs@.foreground == attrs.foreground,
        attrs@.background == attrs.background,
        attrs.hyperlink is None ==> attrs@.hyperlink is None,
        attrs.hyperlink == Some(link) ==> attrs@.hyperlink == Some(link.uri@),
        set matches AttributeChange::Intensity(v) ==> set@ == AttributeChangeView::Intensity(v),
        set matches AttributeChange::Underline(v) ==> set@ == AttributeChangeView::Underline(v),
        set matches AttributeChange::Blink(v) ==> set@ == AttributeChangeView::Blink(v),
        set matches AttributeChange::Italic(v) ==> set@ == AttributeChangeView::Italic(v),
        set matches AttributeChange::Reverse(v) ==> set@ == AttributeChangeView::Reverse(v),
        set matches AttributeChange::StrikeThrough(v) ==> set@
            == AttributeChangeView::StrikeThrough(v),
        set matches AttributeChange::Invisible(v) ==> set@ == AttributeChangeView::Invisible(v),
        set matches AttributeChange::Foreground(v) ==> set@ == AttributeChangeView::Foreground(v),
        set matches AttributeChange::Background(v) ==> set@ == AttributeChangeView::Background(v),
        set == AttributeChange::Hyperlink(None) ==> set@ == AttributeChangeView::Hyperlink(None),
        set == AttributeChange::Hyperlink(Some(link)) ==> set@ == AttributeChangeView::Hyperlink(
            Some(link.uri@),
        ),
        change matches Change::Attribute(made) ==> change@ == ChangeView::Attribute(made@),
        change matches Change::AllAttributes(made) ==> change@ == ChangeView::AllAttributes(made@),
        change matches Change::Text(text) ==> change@ == ChangeView::Text(text@),
        change matches Change::CursorPosition { x, y } ==> change@ == (
        ChangeView::CursorPosition { x, y }),
{
}

/// Two cells compare equal just when they show the same character with the same
/// attributes.
pub proof fn law_cells_are_told_apart(a: Cell, b: Cell)
    ensures
        a.eq_spec(&b) <==> a@.ch == b@.ch && a@.attrs == b@.attrs,
{
}

/// Whether `to` is where a cursor at `from` goes in a line or column of `limit`
/// places: where it is told to, or to the first or the last place if that is
/// outside.
pub open spec fn goes(from: int, to: int, position: Position, limit: int) -> bool {
    match position {
        Position::NoChange => {
            &&& from < limit ==> to == from
            &&& from >= limit ==> to == limit - 1
        },
        Position::Relative(delta) => {
            &&& 0 <= from + delta < limit ==> to == from + delta
            &&& from + delta < 0 ==> to == 0
            &&& from + delta >= limit ==> to == limit - 1
        },
        Position::Absolute(place) => {
            &&& place < limit ==> to == place
            &&& place >= limit ==> to == limit - 1
        },
        Position::EndRelative(delta) => {
            &&& delta == 0 ==> to == limit - 1
            &&& 0 < delta <= limit ==> to + delta == limit
            &&& delta > limit ==> to == 0
        },
    }
}

/// A cursor move moves each coordinate on its own, to where it is told to.  It
/// changes no cell and no attribute.
pub proof fn law_move_moves_the_cursor(canvas: Canvas, x: Position, y: Position)
    requires
        canvas.wf(),
        canvas.width > 0,
    ensures
        ({
            let after = canvas.apply(ChangeView::CursorPosition { x, y });
            &&& goes(canvas.x, after.x, x, canvas.width)
            &&& goes(canvas.y, after.y, y, canvas.height)
            &&& 0 <= after.x < canvas.width
            &&& 0 <= after.y < canvas.height
            &&& after.attrs == canvas.attrs
            &&& after.width == canvas.width
            &&& after.height == canvas.height
            &&& after.lines == canvas.lines
        }),
{
}

/// A coordinate that is told not to change stays where it is, and one that was
/// told so by an earlier move does too: only the other one moves.
pub proof fn law_moves_are_independent(canvas: Canvas, x: Position, y: Position)
    requires
        canvas.wf(),
        canvas.x < canvas.width,
    ensures
        canvas.apply(ChangeView::CursorPosition { x, y }) == canvas.apply(
            ChangeView::CursorPosition { x, y: Position::NoChange },
        ).apply(ChangeView::CursorPosition { x: Position::NoChange, y }),
        canvas.apply(
            ChangeView::CursorPosition { x: Position::NoChange, y: Position::NoChange },
        ) == canvas,
{
}

/// Setting all attributes makes them those of the text that follows, and changes
/// neither a cell nor the cursor.
pub proof fn law_all_attributes_are_set(canvas: Canvas, attrs: AttributesView)
    ensures
        ({
            let after = canvas.apply(ChangeView::AllAttributes(attrs));
            &&& after.attrs == attrs
            &&& after.x == canvas.x
            &&& after.y == canvas.y
            &&& after.width == canvas.width
            &&& after.height == canvas.height
            &&& after.lines == canvas.lines
        }),
{
}

/// A change of one attribute, to whatever value, gives that attribute exactly
/// this value.  It keeps the nine others, every cell and the cursor.
pub proof fn law_attribute_is_set(canvas: Canvas, change: AttributeChangeView)
    ensures
        ({
            let after = canvas.apply(ChangeView::Attribute(change));
            let new = after.attrs;
            let old_attrs = canvas.attrs;
            &&& after.x == canvas.x
            &&& after.y == canvas.y
            &&& after.width == canvas.width
            &&& after.height == canvas.height
            &&& after.lines == canvas.lines
            &&& match change {
                AttributeChangeView::Intensity(v) => new.intensity == v,
                _ => new.intensity == old_attrs.intensity,
            }
            &&& match change {
                AttributeChangeView::Underline(v) => new.underline == v,
                _ => new.underline == old_attrs.underline,
            }
            &&& match change {
                AttributeChangeView::Blink(v) => new.blink == v,
                _ => new.blink == old_attrs.blink,
            }
            &&& match change {
                AttributeChangeView::Italic(v) => new.italic == v,
                _ => new.italic == old_attrs.italic,
            }
            &&& match change {
                AttributeChangeView::Reverse(v) => new.reverse == v,
                _ => new.reverse == old_attrs.reverse,
            }
            &&& match change {
                AttributeChangeView::StrikeThrough(v) => new.strikethrough == v,
                _ => new.strikethrough == old_attrs.strikethrough,
            }
            &&& match change {
                AttributeChangeView::Invisible(v) => new.invisible == v,
                _ => new.invisible == old_attrs.invisible,
            }
            &&& match change {
                AttributeChangeView::Foreground(v) => new.foreground == v,
                _ => new.foreground == old_attrs.foreground,
            }
            &&& match change {
                AttributeChangeView::Background(v) => new.background == v,
                _ => new.background == old_attrs.background,
            }
            &&& match change {
                AttributeChangeView::Hyperlink(v) => new.hyperlink == v,
                _ => new.hyperlink == old_attrs.hyperlink,
            }
        }),
{
}

/// Setting an attribute and then setting it back leaves the attributes as they
/// were, whatever it was set to.
pub proof fn law_attribute_can_be_set_back(canvas: Canvas, change: AttributeChangeView)
    ensures
        ({
            let attrs = canvas.attrs;
            let back = match change {
                AttributeChangeView::Intensity(_) => AttributeChangeView::Intensity(
                    attrs.intensity,
                ),
                AttributeChangeView::Underline(_) => AttributeChangeView::Underline(
                    attrs.underline,
                ),
                AttributeChangeView::Blink(_) => AttributeChangeView::Blink(attrs.blink),
                AttributeChangeView::Italic(_) => AttributeChangeView::Italic(attrs.italic),
                AttributeChangeView::Reverse(_) => AttributeChangeView::Reverse(attrs.reverse),
                AttributeChangeView::StrikeThrough(_) => AttributeChangeView::StrikeThrough(
                    attrs.strikethrough,
                ),
                AttributeChangeView::Invisible(_) => AttributeChangeView::Invisible(
                    attrs.invisible,
                ),
                AttributeChangeView::Foreground(_) => AttributeChangeView::Foreground(
                    attrs.foreground,
                ),
                AttributeChangeView::Background(_) => AttributeChangeView::Background(
                    attrs.background,
                ),
                AttributeChangeView::Hyperlink(_) => AttributeChangeView::Hyperlink(
                    attrs.hyperlink,
                ),
            };
            canvas.apply(ChangeView::Attribute(change)).apply(ChangeView::Attribute(back))
                == canvas
        }),
{
}

/// A text that is printed after an attribute was set shows that attribute: the
/// cell has the attributes as the change left them.
pub proof fn law_printed_cell_has_the_set_attribute(
    canvas: Canvas,
    change: AttributeChangeView,
    c: char,
)
    requires
        canvas.wf(),
        canvas.x < canvas.width,
        c != '\r',
        c != '\n',
    ensures
        ({
            let set = canvas.apply(ChangeView::Attribute(change));
            let after = set.apply(ChangeView::Text(seq![c]));
            let cell = after.lines[canvas.y][canvas.x];
            &&& is_print_of(cell, c, set.attrs)
            &&& change matches AttributeChangeView::Intensity(v) ==> cell.attrs.intensity == v
            &&& change matches AttributeChangeView::Underline(v) ==> cell.attrs.underline == v
            &&& change matches AttributeChangeView::Blink(v) ==> cell.attrs.blink == v
            &&& change matches AttributeChangeView::Italic(v) ==> cell.attrs.italic == v
            &&& change matches AttributeChangeView::Reverse(v) ==> cell.attrs.reverse == v
            &&& change matches AttributeChangeView::StrikeThrough(v) ==> cell.attrs.strikethrough
                == v
            &&& change matches AttributeChangeView::Invisible(v) ==> cell.attrs.invisible == v
            &&& change matches AttributeChangeView::Foreground(v) ==> cell.attrs.foreground == v
            &&& change matches AttributeChangeView::Background(v) ==> cell.attrs.background == v
            &&& change matches AttributeChangeView::Hyperlink(v) ==> cell.attrs.hyperlink == v
        }),
{
    let set = canvas.apply(ChangeView::Attribute(change));
    law_attribute_is_set(canvas, change);
    law_print_under_cursor(set, c);
}

/// A change of size keeps each cell whose place is in both sizes, makes every
/// other cell a plain space, keeps the attributes, and keeps each coordinate of
/// the cursor or makes it the last place.
pub proof fn law_resize_keeps_what_fits(canvas: Canvas, width: int, height: int)
    requires
        canvas.wf(),
        0 < width,
        0 < height,
    ensures
        ({
            let after = canvas.resized(width, height);
            &&& after.width == width
            &&& after.height == height
            &&& after.lines.len() == height
            &&& forall|row: int|
                0 <= row < height ==> (#[trigger] after.lines[row]).len() == width
            &&& forall|row: int, col: int|
                0 <= row < height && 0 <= col < width && row < canvas.height && col < canvas.width
                    ==> #[trigger] after.lines[row][col] == canvas.lines[row][col]
            &&& forall|row: int, col: int|
                0 <= row < height && 0 <= col < width && (row >= canvas.height || col
                    >= canvas.width) ==> is_plain_space(#[trigger] after.lines[row][col])
            &&& after.attrs == canvas.attrs
            &&& canvas.x < width ==> after.x == canvas.x
            &&& canvas.x >= width ==> after.x == width - 1
            &&& canvas.y < height ==> after.y == canvas.y
            &&& canvas.y >= height ==> after.y == height - 1
        }),
{
}

/// Growing a display and shrinking it back loses no cell.
pub proof fn law_resize_there_and_back(canvas: Canvas, width: int, height: int)
    requires
        canvas.wf(),
        canvas.width > 0,
        canvas.width <= width,
        canvas.height <= height,
    ensures
        canvas.resized(width, height).resized(canvas.width, canvas.height).lines == canvas.lines,
{
    let wide = canvas.resized(width, height);
    let back = wide.resized(canvas.width, canvas.height);
    assert forall|row: int| 0 <= row < canvas.height implies #[trigger] back.lines[row]
        =~= canvas.lines[row] by {
        assert(canvas.lines[row].len() == canvas.width);
    }
    assert(back.lines =~= canvas.lines);
}

} // verus!
