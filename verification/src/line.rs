//! One row of a screen.
use vstd::prelude::*;
use crate::cell::{blank, cells_view, Cell, CellAttributes, CellView};
use crate::change::{changes_view, Change, ChangeView};
use crate::paint::{active_after, append_text, draw_line};

verus! {

/// One row of a screen.
#[derive(Debug)]
pub struct Line {
    pub cells: Vec<Cell>,
}

impl View for Line {
    type V = Seq<CellView>;

    open spec fn view(&self) -> Seq<CellView> {
        cells_view(self.cells@)
    }
}

impl Clone for Line {
    fn clone(&self) -> (copy: Line)
        ensures
            copy@ == self@,
    {
        let cells = self.cells.clone();
        proof {
            assert(cells@ =~= self.cells@);
        }
        Line { cells }
    }
}

impl Line {
    /// A row of blank cells.
    pub fn with_width(width: usize) -> (line: Line)
        ensures
            line@.len() == width,
            forall|col: int| 0 <= col < width ==> #[trigger] line@[col] == blank(),
    {
        let mut cells = Vec::with_capacity(width);
        cells.resize(width, Cell::default());
        Line { cells }
    }

    /// Gives the row another width: cells are dropped from its end, or blank
    /// cells are added there.
    pub fn resize(&mut self, width: usize)
        ensures
            final(self)@.len() == width,
            forall|col: int|
                0 <= col < width ==> #[trigger] final(self)@[col] == if col < old(self)@.len() {
                    old(self)@[col]
                } else {
                    blank()
                },
    {
        self.cells.resize(width, Cell::default());
    }

    /// Given a starting attribute value, produce a series of Change
    /// entries to recreate the current line
    pub fn changes(&self, start_attr: &CellAttributes) -> (result: Vec<Change>)
        ensures
            changes_view(result@) == draw_line(seq![], start_attr@, self@),
    {
        let mut result: Vec<Change> = Vec::new();
        let mut attr = start_attr.clone();
        let mut text_run = String::new();

        let mut i: usize = 0;
        while i < self.cells.len()
            invariant
                i <= self.cells@.len(),
                attr@ == active_after(start_attr@, self@.take(i as int)),
                with_run(changes_view(result@), text_run@) == draw_line(
                    seq![],
                    start_attr@,
                    self@.take(i as int),
                ),
                i > 0 ==> text_run@.len() > 0,
                i == 0 ==> result@.len() == 0 && text_run@.len() == 0,
                result@.len() > 0 ==> !(result@.last()@ is Text),
            decreases self.cells@.len() - i,
        {
            let cell = &self.cells[i];
            let ghost out = with_run(changes_view(result@), text_run@);
            proof {
                assert(self@.take(i + 1).drop_last() =~= self@.take(i as int));
                assert(self@.take(i + 1).last() == cell@);
            }
            if *cell.attrs() == attr {
                let ghost run = text_run@;
                text_run.push(cell.char());
                proof {
                    if run.len() == 0 {
                        assert(text_run@ =~= seq![cell@.ch]);
                        assert(out.len() == 0);
                    } else {
                        assert(out.drop_last() =~= changes_view(result@));
                    }
                    assert(with_run(changes_view(result@), text_run@) =~= append_text(
                        out,
                        cell@.ch,
                    ));
                }
            } else {
                // flush out the current text run
                if !text_run.as_str().is_empty() {
                    result.push(Change::from(text_run));
                    text_run = String::new();
                }
                proof {
                    assert(changes_view(result@) =~= out);
                }

                attr = cell.attrs().clone();
                result.push(Change::AllAttributes(attr.clone()));
                text_run.push(cell.char());
                proof {
                    let colored = out.push(ChangeView::AllAttributes(cell@.attrs));
                    assert(changes_view(result@) =~= colored);
                    assert(text_run@ =~= seq![cell@.ch]);
                    assert(with_run(changes_view(result@), text_run@) =~= append_text(
                        colored,
                        cell@.ch,
                    ));
                }
            }
            i = i + 1;
        }
        proof {
            assert(self@.take(i as int) =~= self@);
        }

        // flush out any remaining text run
        let ghost out = with_run(changes_view(result@), text_run@);
        if !text_run.as_str().is_empty() {
            result.push(Change::from(text_run));
        }
        proof {
            assert(changes_view(result@) =~= out);
        }
        result
    }
}

/// The stream `out` followed by a run of text, if there is any.
spec fn with_run(out: Seq<ChangeView>, run: Seq<char>) -> Seq<ChangeView> {
    if run.len() == 0 {
        out
    } else {
        out.push(ChangeView::Text(run))
    }
}

} // verus!
