//! A display that follows a screen over several rounds.
use vstd::prelude::*;
use crate::canvas::{law_apply_all_keeps_wf, law_print_keeps_wf, Canvas};
use crate::change::ChangeView;
use crate::laws::{law_history_kept_by_changes, law_stream_brings_up_to_date};
use crate::paint::{active_below, law_repaint_reproduces, shows};
use crate::screen::ScreenView;

verus! {

/// A screen, a display that follows it, and the sequence number that the
/// display was brought up to date at, which is 0 before the first time.
#[verifier::ext_equal]
pub struct Follower {
    pub screen: ScreenView,
    pub display: Canvas,
    pub seq: int,
}

/// Whether a text puts anything into a cell.
pub open spec fn prints(text: Seq<char>) -> bool {
    exists|i: int| 0 <= i < text.len() && #[trigger] text[i] != '\r' && text[i] != '\n'
}

/// Whether a text goes to the start of a line before it puts anything into a
/// cell.
pub open spec fn returns_first(text: Seq<char>) -> bool {
    exists|i: int|
        {
            &&& 0 <= i < text.len()
            &&& #[trigger] text[i] == '\r'
            &&& forall|j: int| 0 <= j < i ==> #[trigger] text[j] == '\n'
        }
}

/// Whether two displays hold the same cells, with the cursor in the same row.
pub open spec fn matches_cells(a: Canvas, b: Canvas) -> bool {
    &&& a.same_size(b)
    &&& a.lines == b.lines
    &&& a.y == b.y
}

/// Whether a change that puts anything into a cell finds the same attributes on
/// two displays, and the cursor in the same column or sent to the start of a
/// line first.
pub open spec fn prints_alike(a: Canvas, b: Canvas, change: ChangeView) -> bool {
    match change {
        ChangeView::Text(text) => prints(text) ==> {
            &&& a.attrs == b.attrs
            &&& a.x == b.x || returns_first(text)
        },
        _ => true,
    }
}

/// Whether each change of a stream finds this when it is made.
pub open spec fn all_print_alike(a: Canvas, b: Canvas, changes: Seq<ChangeView>) -> bool {
    forall|i: int|
        0 <= i < changes.len() ==> prints_alike(
            a.apply_all(changes.take(i)),
            b.apply_all(changes.take(i)),
            #[trigger] changes[i],
        )
}

impl Follower {
    /// One round: changes are made to the screen, and the display takes the
    /// stream that the screen hands out for it.
    pub open spec fn round(self, changes: Seq<ChangeView>) -> Follower {
        let screen = self.screen.added(changes);
        Follower {
            screen,
            display: self.display.apply_all(screen.stream(self.seq)),
            seq: screen.seqno,
        }
    }

    /// Several rounds one after the other.
    pub open spec fn rounds(self, lots: Seq<Seq<ChangeView>>) -> Follower
        decreases lots.len(),
    {
        if lots.len() == 0 {
            self
        } else {
            self.rounds(lots.drop_last()).round(lots.last())
        }
    }

    /// What holds before every round: the display was never brought up to date,
    /// or it holds the cells of the screen.
    pub open spec fn wf(self) -> bool {
        &&& self.screen.wf()
        &&& !self.screen.canvas.is_empty()
        &&& self.display.wf()
        &&& self.display.same_size(self.screen.canvas)
        &&& self.seq == 0 || (self.seq == self.screen.seqno && matches_cells(
            self.display,
            self.screen.canvas,
        ))
    }

    /// Whether a round can be made with these changes: they can be counted, and
    /// where they are handed out, each text among them finds the display as it
    /// found the screen.
    pub open spec fn takes(self, changes: Seq<ChangeView>) -> bool {
        &&& self.screen.seqno + changes.len() <= usize::MAX
        &&& !self.screen.added(changes).needs_repaint(self.seq) ==> all_print_alike(
            self.display,
            self.screen.canvas,
            changes,
        )
    }
}

/// A display that is equal to a screen in all stays so over a round in which the
/// changes are handed out, or in which the screen is repainted while its cursor
/// does not wait behind the last column and the attributes of the text printed
/// next are those of the last cell.  It shows the same after any round.
pub proof fn law_round_keeps_in_step(
    screen: ScreenView,
    display: Canvas,
    changes: Seq<ChangeView>,
)
    requires
        screen.wf(),
        !screen.canvas.is_empty(),
        screen.canvas.accepts_all(changes),
        screen.seqno + changes.len() <= usize::MAX,
        display == screen.canvas,
    ensures
        ({
            let after = screen.added(changes);
            let shown = display.apply_all(after.stream(screen.seqno));
            let canvas = after.canvas;
            &&& after.wf()
            &&& shows(shown, canvas)
            &&& !after.needs_repaint(screen.seqno) ==> shown == canvas
            &&& canvas.x < canvas.width && canvas.attrs == active_below(canvas.lines) ==> shown
                == canvas
        }),
{
    let after = screen.added(changes);
    let base = choose|base: Canvas| screen.led_to_from(base);
    law_history_kept_by_changes(screen, base, changes);
    law_apply_all_keeps_wf(screen.canvas, changes);
    let n = screen.seqno - after.first();
    assert(after.changes.take(n) =~= screen.changes);
    law_stream_brings_up_to_date(after, base, screen.seqno, display);
}

/// A text keeps two displays with the same cells alike if it prints alike.
proof fn lemma_print_alike(a: Canvas, b: Canvas, text: Seq<char>)
    requires
        a.wf(),
        b.wf(),
        !a.is_empty(),
        matches_cells(a, b),
        prints_alike(a, b, ChangeView::Text(text)),
    ensures
        matches_cells(a.print(text), b.print(text)),
        a.x == b.x || text.contains('\r') ==> a.print(text).x == b.print(text).x,
    decreases text.len(),
{
    if text.len() > 0 {
        let before = text.drop_last();
        let c = text.last();
        assert(c == text[text.len() - 1]);
        assert(forall|i: int| 0 <= i < before.len() ==> #[trigger] before[i] == text[i]);
        if prints(before) {
            let k = choose|k: int|
                0 <= k < before.len() && #[trigger] before[k] != '\r' && before[k] != '\n';
            assert(text[k] == before[k]);
            assert(prints(text));
            if a.x != b.x {
                let i = choose|i: int|
                    {
                        &&& 0 <= i < text.len()
                        &&& #[trigger] text[i] == '\r'
                        &&& forall|j: int| 0 <= j < i ==> #[trigger] text[j] == '\n'
                    };
                assert(i < k);
                assert(before[i] == '\r');
                assert(returns_first(before));
            }
        }
        lemma_print_alike(a, b, before);
        law_print_keeps_wf(a, before);
        law_print_keeps_wf(b, before);
        let left = a.print(before);
        let right = b.print(before);
        if c != '\r' && c != '\n' {
            assert(prints(text));
            if a.x != b.x {
                let i = choose|i: int|
                    {
                        &&& 0 <= i < text.len()
                        &&& #[trigger] text[i] == '\r'
                        &&& forall|j: int| 0 <= j < i ==> #[trigger] text[j] == '\n'
                    };
                assert(before[i] == '\r');
                assert(before.contains('\r'));
            }
            assert(left == right);
        } else if c == '\n' {
            if text.contains('\r') {
                let i = choose|i: int| 0 <= i < text.len() && text[i] == '\r';
                assert(before[i] == '\r');
                assert(before.contains('\r'));
            }
        }
    }
}

/// Streams keep two displays with the same cells alike if they print alike.
proof fn lemma_apply_all_alike(a: Canvas, b: Canvas, changes: Seq<ChangeView>)
    requires
        a.wf(),
        b.wf(),
        !a.is_empty(),
        matches_cells(a, b),
        all_print_alike(a, b, changes),
    ensures
        matches_cells(a.apply_all(changes), b.apply_all(changes)),
    decreases changes.len(),
{
    if changes.len() > 0 {
        let before = changes.drop_last();
        let n = before.len() as int;
        assert forall|i: int| 0 <= i < before.len() implies prints_alike(
            a.apply_all(before.take(i)),
            b.apply_all(before.take(i)),
            #[trigger] before[i],
        ) by {
            assert(before[i] == changes[i]);
            assert(before.take(i) =~= changes.take(i));
        }
        lemma_apply_all_alike(a, b, before);
        law_apply_all_keeps_wf(a, before);
        law_apply_all_keeps_wf(b, before);
        assert(changes.take(n) =~= before);
        assert(prints_alike(a.apply_all(before), b.apply_all(before), changes[n]));
        match changes.last() {
            ChangeView::Text(text) => {
                lemma_print_alike(a.apply_all(before), b.apply_all(before), text);
            },
            _ => {},
        }
    }
}

/// After a round the display holds the cells of the screen, and is ready for the
/// next one.
pub proof fn law_round_matches(follower: Follower, changes: Seq<ChangeView>)
    requires
        follower.wf(),
        follower.takes(changes),
    ensures
        follower.round(changes).wf(),
        matches_cells(
            follower.round(changes).display,
            follower.round(changes).screen.canvas,
        ),
{
    let screen = follower.screen;
    let after = screen.added(changes);
    let display = follower.display;
    let stream = after.stream(follower.seq);
    let base = choose|base: Canvas| screen.led_to_from(base);
    law_history_kept_by_changes(screen, base, changes);
    law_apply_all_keeps_wf(screen.canvas, changes);
    law_apply_all_keeps_wf(display, stream);
    if after.needs_repaint(follower.seq) {
        law_repaint_reproduces(after.canvas, display);
    } else {
        assert(stream =~= changes);
        lemma_apply_all_alike(display, screen.canvas, changes);
    }
}

/// A display that follows a screen, starting with sequence number 0 and whatever
/// it shows, holds the cells of the screen after every round: whether the screen
/// is repainted or the changes are handed out.  Left out are rounds in which a
/// text is handed out while the display has other attributes than the screen
/// had, or another column of the cursor, since a repaint sets neither back.
pub proof fn law_rounds_match(follower: Follower, lots: Seq<Seq<ChangeView>>)
    requires
        follower.wf(),
        forall|k: int|
            0 <= k < lots.len() ==> follower.rounds(lots.take(k)).takes(#[trigger] lots[k]),
    ensures
        follower.rounds(lots).wf(),
        forall|k: int|
            0 < k <= lots.len() ==> matches_cells(
                (#[trigger] follower.rounds(lots.take(k))).display,
                follower.rounds(lots.take(k)).screen.canvas,
            ),
    decreases lots.len(),
{
    if lots.len() > 0 {
        let before = lots.drop_last();
        let n = before.len() as int;
        assert forall|k: int| 0 <= k < before.len() implies follower.rounds(before.take(k)).takes(
            #[trigger] before[k],
        ) by {
            assert(before[k] == lots[k]);
            assert(before.take(k) =~= lots.take(k));
        }
        law_rounds_match(follower, before);
        assert(lots.take(n) =~= before);
        assert(follower.rounds(lots.take(n)).takes(lots[n]));
        law_round_matches(follower.rounds(before), lots.last());
        assert forall|k: int| 0 < k <= lots.len() implies matches_cells(
            (#[trigger] follower.rounds(lots.take(k))).display,
            follower.rounds(lots.take(k)).screen.canvas,
        ) by {
            if k <= n {
                assert(before.take(k) =~= lots.take(k));
                assert(matches_cells(
                    follower.rounds(before.take(k)).display,
                    follower.rounds(before.take(k)).screen.canvas,
                ));
            } else {
                assert(lots.take(k) =~= lots);
            }
        }
    }
}

} // verus!
