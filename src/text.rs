//! Rendering a grid of cell texts: each cell followed by one space, rows
//! separated by line breaks, no line break after the last row.
use vstd::prelude::*;
use crate::matrix::{Matrix, MatrixCell};

verus! {

/// The text of one row: every cell followed by a space.
pub open spec fn row_text(cells: Seq<Seq<char>>) -> Seq<char>
    decreases cells.len(),
{
    if cells.len() == 0 {
        Seq::empty()
    } else {
        row_text(cells.drop_last()) + cells.last() + seq![' ']
    }
}

/// The text of a grid: the row texts joined by line breaks.
pub open spec fn grid_text(rows: Seq<Seq<Seq<char>>>) -> Seq<char>
    decreases rows.len(),
{
    if rows.len() == 0 {
        Seq::empty()
    } else if rows.len() == 1 {
        row_text(rows[0])
    } else {
        grid_text(rows.drop_last()) + seq!['\n'] + row_text(rows.last())
    }
}

/// `t` is the text of a string that `show` may return for `x`.
pub open spec fn shows<T, F: Fn(T) -> String>(show: F, x: T, t: Seq<char>) -> bool {
    exists|s: String| #[trigger] show.ensures((x,), s) && s@ == t
}

/// The character sequences of a grid of strings.
pub open spec fn texts_of(cells: Seq<Vec<String>>) -> Seq<Seq<Seq<char>>> {
    cells.map_values(|r: Vec<String>| r@.map_values(|c: String| c@))
}

/// Lays out a grid of cell texts as described above.
pub fn layout(cells: &Vec<Vec<String>>) -> (r: String)
    ensures
        r@ == grid_text(texts_of(cells@)),
{
    let mut out = String::new();
    let ghost all = texts_of(cells@);
    for i in 0..cells.len()
        invariant
            all == texts_of(cells@),
            out@ == grid_text(all.take(i as int)),
    {
        if i > 0 {
            proof {
                reveal_strlit("\n");
            }
            out.append("\n");
        }
        let row = &cells[i];
        let ghost line_start = out@;
        for j in 0..row.len()
            invariant
                all == texts_of(cells@),
                i < cells.len(),
                row == cells@[i as int],
                out@ == line_start + row_text(all[i as int].take(j as int)),
        {
            out.append(row[j].as_str());
            proof {
                reveal_strlit(" ");
            }
            out.append(" ");
            assert(all[i as int].take(j as int + 1).drop_last() =~= all[i as int].take(j as int));
        }
        assert(all[i as int].take(row.len() as int) =~= all[i as int]);
        assert(all.take(i as int + 1).drop_last() =~= all.take(i as int));
    }
    assert(all.take(cells.len() as int) =~= all);
    out
}

impl<T, const HEIGHT: usize, const WIDTH: usize> Matrix<T, HEIGHT, WIDTH> where T: MatrixCell<T> {
    /// `cells` holds, for every cell, a text that `show` may return for it.
    pub open spec fn shown_as<F: Fn(T) -> String>(&self, show: F, cells: Seq<Seq<Seq<char>>>) -> bool {
        &&& cells.len() == HEIGHT
        &&& forall|i: int| 0 <= i < HEIGHT ==> (#[trigger] cells[i]).len() == WIDTH
        &&& forall|i: int, j: int|
            0 <= i < HEIGHT && 0 <= j < WIDTH ==> #[trigger] shows(show, self@[i][j], cells[i][j])
    }

    /// The matrix as text, each cell written by `show`, laid out by `layout`.
    pub fn to_text<F: Fn(T) -> String>(&self, show: F) -> (r: String)
        requires
            forall|x: T| #[trigger] show.requires((x,)),
        ensures
            exists|cells: Seq<Seq<Seq<char>>>|
                #[trigger] self.shown_as(show, cells) && grid_text(cells) == r@,
    {
        let rows = self.rows();
        let mut cells: Vec<Vec<String>> = Vec::new();
        for i in 0..HEIGHT
            invariant
                rows@.len() == HEIGHT,
                forall|ii: int| 0 <= ii < HEIGHT ==> (#[trigger] rows@[ii])@ == self@[ii],
                forall|x: T| #[trigger] show.requires((x,)),
                cells@.len() == i,
                forall|ii: int| 0 <= ii < i ==> (#[trigger] cells@[ii])@.len() == WIDTH,
                forall|ii: int, j: int|
                    0 <= ii < i && 0 <= j < WIDTH ==> #[trigger] show.ensures(
                        (self@[ii][j],),
                        cells@[ii]@[j],
                    ),
        {
            let row = &rows[i];
            let mut line: Vec<String> = Vec::new();
            for j in 0..WIDTH
                invariant
                    i < HEIGHT,
                    row@ == self@[i as int],
                    forall|x: T| #[trigger] show.requires((x,)),
                    line@.len() == j,
                    forall|jj: int| 0 <= jj < j ==> #[trigger] show.ensures((self@[i as int][jj],), line@[jj]),
            {
                proof {
                    crate::matrix::lemma_shape(*self);
                }
                let x = row[j];
                line.push(show(x));
            }
            cells.push(line);
        }
        let ghost texts = texts_of(cells@);
        assert forall|i: int, j: int| 0 <= i < HEIGHT && 0 <= j < WIDTH implies #[trigger] shows(
            show,
            self@[i][j],
            texts[i][j],
        ) by {
            assert(show.ensures((self@[i][j],), cells@[i]@[j]));
            assert(cells@[i]@[j]@ == texts[i][j]);
        }
        let r = layout(&cells);
        assert(texts.len() == HEIGHT);
        assert forall|i: int| 0 <= i < HEIGHT implies (#[trigger] texts[i]).len() == WIDTH by {}
        assert(self.shown_as(show, texts));
        r
    }
}

} // verus!
