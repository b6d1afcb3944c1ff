//! Splitting a row of screen cells into runs of one rendition, which is how
//! a frontend draws a row: one text span per run.
use vstd::prelude::*;
use crate::terminal::parser::Cell;
use crate::text::string_from_chars;

verus! {

/// A maximal stretch of a row whose cells share colours and weight.
pub struct StyledRun {
    pub text: String,
    pub fg: u32,
    pub bg: u32,
    pub bold: bool,
}

impl View for StyledRun {
    type V = (Seq<char>, u32, u32, bool);

    open spec fn view(&self) -> (Seq<char>, u32, u32, bool) {
        (self.text@, self.fg, self.bg, self.bold)
    }
}

/// Two cells are drawn in the same rendition.
pub open spec fn same_style(a: Cell, b: Cell) -> bool {
    a.fg == b.fg && a.bg == b.bg && a.bold == b.bold
}

/// The end of the run that starts at the first cell, searching from `i`:
/// the first index at or after `i` whose cell differs in rendition from the
/// first cell, or the row's length.
pub open spec fn run_end_from(s: Seq<Cell>, i: nat) -> nat
    decreases s.len() - i,
{
    if i >= s.len() || !same_style(s[i as int], s[0]) {
        i
    } else {
        run_end_from(s, i + 1)
    }
}

pub proof fn lemma_run_end_bounds(s: Seq<Cell>, i: nat)
    requires
        i <= s.len(),
    ensures
        i <= run_end_from(s, i) <= s.len(),
        forall|j: int| i <= j < run_end_from(s, i) ==> same_style(#[trigger] s[j], s[0]),
        run_end_from(s, i) < s.len() ==> !same_style(s[run_end_from(s, i) as int], s[0]),
    decreases s.len() - i,
{
    if i < s.len() && same_style(s[i as int], s[0]) {
        lemma_run_end_bounds(s, i + 1);
    }
}

/// The runs of a row, left to right, each as its text and rendition.
pub open spec fn runs_of(s: Seq<Cell>) -> Seq<(Seq<char>, u32, u32, bool)>
    decreases s.len(),
{
    if s.len() == 0 {
        Seq::empty()
    } else {
        let k = run_end_from(s, 1);
        proof {
            lemma_run_end_bounds(s, 1);
        }
        seq![(s.take(k as int).map_values(|c: Cell| c.ch), s[0].fg, s[0].bg, s[0].bold)] + runs_of(
            s.skip(k as int),
        )
    }
}

/// Splits a row of cells into its runs of one rendition.
pub fn style_runs(cells: &[Cell]) -> (r: Vec<StyledRun>)
    ensures
        r@.map_values(|run: StyledRun| run@) == runs_of(cells@),
{
    let mut out: Vec<StyledRun> = Vec::new();
    let mut start: usize = 0;
    assert(cells@.skip(0) =~= cells@);
    while start < cells.len()
        invariant
            start <= cells@.len(),
            out@.map_values(|run: StyledRun| run@) + runs_of(cells@.skip(start as int)) == runs_of(
                cells@,
            ),
        decreases cells@.len() - start,
    {
        let ghost t = cells@.skip(start as int);
        let mut end: usize = start + 1;
        proof {
            lemma_run_end_bounds(t, 1);
        }
        while end < cells.len() && cells[end].fg == cells[start].fg && cells[end].bg
            == cells[start].bg && cells[end].bold == cells[start].bold
            invariant
                start < end <= cells@.len(),
                t == cells@.skip(start as int),
                run_end_from(t, (end - start) as nat) == run_end_from(t, 1),
            decreases cells@.len() - end,
        {
            assert(t[end - start] == cells@[end as int]);
            assert(t[0] == cells@[start as int]);
            end = end + 1;
        }
        proof {
            assert(t[0] == cells@[start as int]);
            if end < cells.len() {
                assert(t[end - start] == cells@[end as int]);
            }
            assert(run_end_from(t, (end - start) as nat) == end - start);
        }
        let mut chars: Vec<char> = Vec::new();
        let mut i: usize = start;
        while i < end
            invariant
                start <= i <= end <= cells@.len(),
                chars@ == cells@.subrange(start as int, i as int).map_values(|c: Cell| c.ch),
            decreases end - i,
        {
            chars.push(cells[i].ch);
            i = i + 1;
            assert(chars@ =~= cells@.subrange(start as int, i as int).map_values(|c: Cell| c.ch));
        }
        let run = StyledRun {
            text: string_from_chars(&chars),
            fg: cells[start].fg,
            bg: cells[start].bg,
            bold: cells[start].bold,
        };
        let ghost before = out@.map_values(|run: StyledRun| run@);
        out.push(run);
        proof {
            let k = end - start;
            assert(t.take(k as int) =~= cells@.subrange(start as int, end as int));
            assert(t.skip(k as int) =~= cells@.skip(end as int));
            assert(runs_of(t) == seq![run@] + runs_of(cells@.skip(end as int)));
            assert(out@.map_values(|run: StyledRun| run@) =~= before.push(run@));
            assert(before.push(run@) + runs_of(cells@.skip(end as int)) =~= before + runs_of(t));
        }
        start = end;
    }
    assert(cells@.skip(start as int) =~= Seq::<Cell>::empty());
    assert(out@.map_values(|run: StyledRun| run@) + runs_of(cells@.skip(start as int))
        =~= out@.map_values(|run: StyledRun| run@));
    out
}

/// The texts of `runs`, joined in order.
pub open spec fn joined_text(runs: Seq<(Seq<char>, u32, u32, bool)>) -> Seq<char>
    decreases runs.len(),
{
    if runs.len() == 0 {
        Seq::empty()
    } else {
        runs[0].0 + joined_text(runs.skip(1))
    }
}

/// The runs of a row give back its characters in order, none of them is
/// empty, and two neighbouring runs never share a rendition (each run is as
/// long as it can be).
pub proof fn law_runs_partition_row(s: Seq<Cell>)
    ensures
        joined_text(runs_of(s)) == s.map_values(|c: Cell| c.ch),
        forall|i: int| 0 <= i < runs_of(s).len() ==> (#[trigger] runs_of(s)[i]).0.len() > 0,
        forall|i: int|
            0 <= i < runs_of(s).len() - 1 ==> {
                let a = #[trigger] runs_of(s)[i];
                let b = runs_of(s)[i + 1];
                !(a.1 == b.1 && a.2 == b.2 && a.3 == b.3)
            },
    decreases s.len(),
{
    if s.len() == 0 {
        assert(s.map_values(|c: Cell| c.ch) =~= Seq::<char>::empty());
    } else {
        let k = run_end_from(s, 1);
        lemma_run_end_bounds(s, 1);
        let t = s.skip(k as int);
        law_runs_partition_row(t);
        let h = (s.take(k as int).map_values(|c: Cell| c.ch), s[0].fg, s[0].bg, s[0].bold);
        let rs = runs_of(s);
        assert(rs == seq![h] + runs_of(t));
        assert(rs.skip(1) =~= runs_of(t));
        assert(s.map_values(|c: Cell| c.ch) =~= h.0 + t.map_values(|c: Cell| c.ch));
        assert forall|i: int| 0 <= i < rs.len() implies (#[trigger] rs[i]).0.len() > 0 by {
            if i > 0 {
                assert(rs[i] == runs_of(t)[i - 1]);
            }
        }
        assert forall|i: int| 0 <= i < rs.len() - 1 implies {
            let a = #[trigger] rs[i];
            let b = rs[i + 1];
            !(a.1 == b.1 && a.2 == b.2 && a.3 == b.3)
        } by {
            if i == 0 {
                assert(t.len() > 0);
                let t0 = t[0];
                assert(t0 == s[k as int]);
                assert(runs_of(t)[0].1 == t0.fg && runs_of(t)[0].2 == t0.bg && runs_of(t)[0].3 == t0.bold);
                assert(rs[1] == runs_of(t)[0]);
            } else {
                assert(rs[i] == runs_of(t)[i - 1]);
                assert(rs[i + 1] == runs_of(t)[i]);
            }
        }
    }
}

} // verus!
