//! What holds of a screen over several calls.
use vstd::prelude::*;
use crate::canvas::{law_apply_all_concat, law_apply_all_keeps_wf, Canvas};
use crate::cell::is_control;
use crate::change::ChangeView;
use crate::paint::{active_below, law_repaint_reproduces, shows};
use crate::screen::{full_paint_cost, ScreenView};

verus! {

impl ScreenView {
    /// What the screen held at `seq`, where its known changes started from
    /// `base`.
    pub open spec fn held_at(self, base: Canvas, seq: int) -> Canvas {
        base.apply_all(self.changes.take(seq - self.first()))
    }

    /// The screen after changes were made to it one at a time.
    pub open spec fn added_singly(self, changes: Seq<ChangeView>) -> ScreenView
        decreases changes.len(),
    {
        if changes.len() == 0 {
            self
        } else {
            self.added_singly(changes.drop_last()).added(seq![changes.last()])
        }
    }
}

/// A screen without known changes is led to from what it holds.
pub proof fn law_history_starts(screen: ScreenView)
    requires
        screen.canvas.wf(),
        screen.changes.len() == 0,
    ensures
        screen.led_to_from(screen.canvas),
{
}

/// Making changes keeps the history of a screen.
pub proof fn law_history_kept_by_changes(
    screen: ScreenView,
    base: Canvas,
    changes: Seq<ChangeView>,
)
    requires
        screen.wf(),
        screen.led_to_from(base),
        screen.canvas.accepts_all(changes),
    ensures
        screen.added(changes).led_to_from(base),
{
    law_apply_all_concat(base, screen.changes, changes);
    law_apply_all_keeps_wf(screen.canvas, changes);
    assert forall|i: int| 0 <= i < screen.added(changes).changes.len() implies base.accepts(
        #[trigger] screen.added(changes).changes[i],
    ) by {
        if i < screen.changes.len() {
            assert(base.accepts(screen.changes[i]));
        } else {
            assert(screen.canvas.accepts(changes[i - screen.changes.len()]));
        }
    }
}

/// Folding changes away keeps the history of a screen: it then starts from what
/// the screen held at that point.
pub proof fn law_history_kept_by_flush(screen: ScreenView, base: Canvas, seq: int)
    requires
        screen.wf(),
        screen.led_to_from(base),
        screen.first() <= seq <= screen.seqno,
    ensures
        screen.flushed(seq).led_to_from(screen.held_at(base, seq)),
{
    let n = seq - screen.first();
    let gone = screen.changes.take(n);
    let kept = screen.changes.skip(n);
    assert(gone + kept =~= screen.changes);
    law_apply_all_concat(base, gone, kept);
    assert forall|i: int| 0 <= i < gone.len() implies base.accepts(#[trigger] gone[i]) by {
        assert(gone[i] == screen.changes[i]);
    }
    law_apply_all_keeps_wf(base, gone);
    let start = screen.held_at(base, seq);
    assert forall|i: int| 0 <= i < kept.len() implies start.accepts(#[trigger] kept[i]) by {
        assert(base.accepts(screen.changes[i + n]));
    }
}

/// A change of size starts the history of a screen anew.
pub proof fn law_history_restarted_by_resize(screen: ScreenView, width: int, height: int)
    requires
        screen.wf(),
        0 < width <= usize::MAX,
        0 < height <= usize::MAX,
        screen.changes.len() > 0 ==> screen.seqno < usize::MAX,
    ensures
        screen.resized(width, height).wf(),
        screen.resized(width, height).led_to_from(screen.resized(width, height).canvas),
{
    let after = screen.resized(width, height);
    let canvas = after.canvas;
    assert(canvas.is_inert()) by {
        assert forall|row: int, col: int|
            0 <= row < canvas.height && 0 <= col < canvas.width implies !is_control(
            (#[trigger] canvas.lines[row][col]).ch,
        ) by {
            if row < screen.canvas.height && col < screen.canvas.width {
                assert(!is_control(screen.canvas.lines[row][col].ch));
            }
        }
    }
    assert(after.led_to_from(canvas));
}

/// A stream that a screen hands out for `seq` brings a display up to date: one
/// that was equal to the screen at `seq`, or any display of that size where the
/// screen is repainted.  Where the changes made since are
/// handed out, the display is then equal to the screen in all.  Where the screen
/// is repainted, it shows the same, and it is equal in all if in addition the
/// cursor does not wait behind the last column and the attributes of the text
/// printed next are those of the last cell.
pub proof fn law_stream_brings_up_to_date(
    screen: ScreenView,
    base: Canvas,
    seq: int,
    display: Canvas,
)
    requires
        screen.wf(),
        !screen.canvas.is_empty(),
        screen.led_to_from(base),
        display.wf(),
        display.same_size(screen.canvas),
        !screen.needs_repaint(seq) ==> display == screen.held_at(base, seq),
    ensures
        ({
            let canvas = screen.canvas;
            let shown = display.apply_all(screen.stream(seq));
            &&& shows(shown, canvas)
            &&& !screen.needs_repaint(seq) ==> shown == canvas
            &&& canvas.x < canvas.width && canvas.attrs == active_below(canvas.lines) ==> shown
                == canvas
        }),
{
    if screen.needs_repaint(seq) {
        law_repaint_reproduces(screen.canvas, display);
    } else {
        let n = seq - screen.first();
        assert(screen.changes.take(n) + screen.changes.skip(n) =~= screen.changes);
        law_apply_all_concat(base, screen.changes.take(n), screen.changes.skip(n));
    }
}

/// Right after a screen with any changes handed out its sequence number, there
/// is nothing to update.
pub proof fn law_up_to_date_needs_nothing(screen: ScreenView)
    requires
        screen.wf(),
        screen.seqno > 0,
    ensures
        screen.stream(screen.seqno).len() == 0,
{
    let cells = screen.canvas.width * screen.canvas.height;
    assert(cells >= 0) by (nonlinear_arith)
        requires
            cells == screen.canvas.width * screen.canvas.height,
            screen.canvas.width >= 0,
            screen.canvas.height >= 0,
    ;
}

/// The changes made since a point are what the screen hands out for it, as long
/// as they are not more than repainting would take.
pub proof fn law_stream_is_what_was_added(screen: ScreenView, changes: Seq<ChangeView>)
    requires
        screen.wf(),
        screen.seqno > 0,
        changes.len() <= full_paint_cost(screen.canvas.width, screen.canvas.height),
        screen.canvas.accepts_all(changes),
    ensures
        screen.added(changes).stream(screen.seqno) == changes,
{
    law_apply_all_keeps_wf(screen.canvas, changes);
    assert((screen.changes + changes).skip(screen.changes.len() as int) =~= changes);
}

/// Folding away the changes before `flushed_at` leaves what is shown and the
/// sequence number as they are, and the same streams are handed out for every
/// later point.
pub proof fn law_flush_keeps_later_streams(screen: ScreenView, flushed_at: int, seq: int)
    requires
        screen.wf(),
        flushed_at <= seq,
    ensures
        screen.flushed(flushed_at).wf(),
        screen.flushed(flushed_at).canvas == screen.canvas,
        screen.flushed(flushed_at).seqno == screen.seqno,
        screen.flushed(flushed_at).stream(seq) == screen.stream(seq),
{
    let flushed = screen.flushed(flushed_at);
    if screen.first() <= flushed_at <= screen.seqno {
        let base = choose|base: Canvas| screen.led_to_from(base);
        law_history_kept_by_flush(screen, base, flushed_at);
    }
    if screen.first() <= flushed_at <= screen.seqno && seq <= screen.seqno {
        assert(flushed.first() == flushed_at);
        assert(flushed.changes.skip(seq - flushed_at) =~= screen.changes.skip(
            seq - screen.first(),
        ));
    }
}

/// For every point before the one that changes were folded away at, the screen
/// is repainted.
pub proof fn law_flush_repaints_earlier_points(screen: ScreenView, flushed_at: int, seq: int)
    requires
        screen.wf(),
        screen.first() <= flushed_at <= screen.seqno,
        seq < flushed_at,
    ensures
        screen.flushed(flushed_at).needs_repaint(seq),
{
}

/// Folding away the same changes again does nothing.
pub proof fn law_flush_again_does_nothing(screen: ScreenView, seq: int)
    requires
        screen.wf(),
    ensures
        screen.flushed(seq).flushed(seq) == screen.flushed(seq),
{
    assert(screen.flushed(seq).flushed(seq).changes =~= screen.flushed(seq).changes);
}

/// After a change of size, a screen with known changes is repainted for every
/// point before it.
pub proof fn law_resize_forces_repaint(screen: ScreenView, width: int, height: int, seq: int)
    requires
        screen.wf(),
        screen.changes.len() > 0,
        seq <= screen.seqno,
    ensures
        screen.resized(width, height).needs_repaint(seq),
{
}

/// Making changes in two lots is making them all at once.
pub proof fn law_changes_in_lots(
    screen: ScreenView,
    first: Seq<ChangeView>,
    second: Seq<ChangeView>,
)
    ensures
        screen.added(first + second) == screen.added(first).added(second),
{
    law_apply_all_concat(screen.canvas, first, second);
    assert(screen.changes + (first + second) =~= (screen.changes + first) + second);
}

/// Making changes at once is making them one at a time.
pub proof fn law_lot_is_single_changes(screen: ScreenView, changes: Seq<ChangeView>)
    ensures
        screen.added(changes) == screen.added_singly(changes),
    decreases changes.len(),
{
    if changes.len() == 0 {
        assert(screen.changes + changes =~= screen.changes);
    } else {
        let before = changes.drop_last();
        law_lot_is_single_changes(screen, before);
        law_changes_in_lots(screen, before, seq![changes.last()]);
        assert(before + seq![changes.last()] =~= changes);
    }
}

/// On a screen that had changes before, making `n` changes at once returns the
/// number that making them one at a time returns for the last of them.
pub proof fn law_last_seq_of_lot(screen: ScreenView, changes: Seq<ChangeView>)
    requires
        screen.seqno > 0,
        changes.len() > 0,
    ensures
        screen.last_seq(changes.len() as int) == screen.added(changes.drop_last()).seqno,
{
}

} // verus!
