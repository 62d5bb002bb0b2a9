//! Hints: a fixed-priority, read-only search for the first useful move,
//! returned both as structured data and as a human-readable sentence.

use vstd::prelude::*;
use vstd::string::*;
use crate::card::{Card, compact_text_spec};
use crate::game::{GameState, StateView, face_up_start, first_face_up, valid_tableau_spec};
use crate::moves::{first_foundation_for, first_tableau_foundation_target};

verus! {

/// A structured hint: the single first-found candidate of the search, or
/// the advice to draw.
#[derive(Clone, Copy, PartialEq, Eq, Structural, Debug)]
pub enum Hint {
    /// Move the face-up top card of `from_col` to a foundation.
    TableauToFoundation { card: Card, from_col: usize },
    /// Move the run led by `card` from `from_col` onto `to_col`.
    TableauToTableau { card: Card, from_col: usize, to_col: usize },
    /// Move the waste's top card onto tableau column `to_col`.
    WasteToTableau { card: Card, to_col: usize },
    /// Draw from the stock (or recycle the waste).
    DrawFromStock,
}

/// The card that leads the candidate run of a column: its lowest face-up
/// card, or its bottom card when none is face up.
pub open spec fn hint_run_card(v: StateView, col: int) -> Card {
    let p = v.tableau[col];
    if face_up_start(p) < p.len() {
        p[face_up_start(p)]
    } else {
        p[0]
    }
}

/// The first column (from `to_col` on, skipping `from_col`) that accepts
/// `card`.
pub open spec fn first_tt_dest(v: StateView, from_col: int, card: Card, to_col: int) -> Option<int>
    decreases 7 - to_col,
{
    if to_col < 0 || to_col >= 7 {
        None
    } else if to_col != from_col && valid_tableau_spec(card, v.tableau[to_col]) {
        Some(to_col)
    } else {
        first_tt_dest(v, from_col, card, to_col + 1)
    }
}

/// The first nonempty column (from `from_col` on) whose candidate run can
/// move to a different column, with the destination found first.
pub open spec fn first_tt_hint(v: StateView, from_col: int) -> Option<(int, int)>
    decreases 7 - from_col,
{
    if from_col < 0 || from_col >= 7 {
        None
    } else if v.tableau[from_col].len() > 0 && first_tt_dest(
        v,
        from_col,
        hint_run_card(v, from_col),
        0,
    ) is Some {
        Some((from_col, first_tt_dest(v, from_col, hint_run_card(v, from_col), 0).unwrap()))
    } else {
        first_tt_hint(v, from_col + 1)
    }
}

/// The first column (from `col` on) that accepts the waste's top card.
pub open spec fn first_wt_dest(v: StateView, col: int) -> Option<int>
    decreases 7 - col,
{
    if col < 0 || col >= 7 {
        None
    } else if valid_tableau_spec(v.waste.last(), v.tableau[col]) {
        Some(col)
    } else {
        first_wt_dest(v, col + 1)
    }
}

/// The hint the fixed-priority search produces: a tableau-top card for a
/// foundation, else a run move between columns, else the waste top onto a
/// column, else a draw while any card remains in stock or waste.
pub open spec fn hint_spec(v: StateView) -> Option<Hint> {
    match first_tableau_foundation_target(v, 0) {
        Some((c, f)) => Some(
            Hint::TableauToFoundation { card: v.tableau[c].last(), from_col: c as usize },
        ),
        None => match first_tt_hint(v, 0) {
            Some((fc, tc)) => Some(
                Hint::TableauToTableau {
                    card: hint_run_card(v, fc),
                    from_col: fc as usize,
                    to_col: tc as usize,
                },
            ),
            None => {
                let wt = if v.waste.len() > 0 {
                    first_wt_dest(v, 0)
                } else {
                    None
                };
                match wt {
                    Some(c) => Some(
                        Hint::WasteToTableau { card: v.waste.last(), to_col: c as usize },
                    ),
                    None => if v.stock.len() > 0 || v.waste.len() > 0 {
                        Some(Hint::DrawFromStock)
                    } else {
                        None
                    },
                }
            },
        },
    }
}

proof fn lemma_first_tf_bounds(v: StateView, col: int, c: int, f: int)
    requires
        0 <= col,
        first_tableau_foundation_target(v, col) == Some((c, f)),
    ensures
        col <= c < 7,
        0 <= f < 4,
    decreases 7 - col,
{
    if col < 7 {
        let p = v.tableau[col];
        if p.len() > 0 && p.last().face_up && first_foundation_for(v, p.last(), 0) is Some {
            lemma_first_ff_bounds(v, p.last(), 0, f);
        } else {
            lemma_first_tf_bounds(v, col + 1, c, f);
        }
    }
}

proof fn lemma_first_ff_bounds(v: StateView, card: Card, f0: int, f: int)
    requires
        0 <= f0,
        first_foundation_for(v, card, f0) == Some(f),
    ensures
        f0 <= f < 4,
    decreases 4 - f0,
{
    if f0 < 4 && !(first_foundation_for(v, card, f0) == Some(f0)) {
        lemma_first_ff_bounds(v, card, f0 + 1, f);
    }
}

proof fn lemma_first_tt_bounds(v: StateView, col: int, fc: int, tc: int)
    requires
        0 <= col,
        first_tt_hint(v, col) == Some((fc, tc)),
    ensures
        col <= fc < 7,
        0 <= tc < 7,
    decreases 7 - col,
{
    if col < 7 {
        if v.tableau[col].len() > 0 && first_tt_dest(v, col, hint_run_card(v, col), 0) is Some {
            lemma_first_ttd_bounds(v, col, hint_run_card(v, col), 0, tc);
        } else {
            lemma_first_tt_bounds(v, col + 1, fc, tc);
        }
    }
}

proof fn lemma_first_ttd_bounds(v: StateView, from_col: int, card: Card, t0: int, tc: int)
    requires
        0 <= t0,
        first_tt_dest(v, from_col, card, t0) == Some(tc),
    ensures
        t0 <= tc < 7,
    decreases 7 - t0,
{
    if t0 < 7 && !(first_tt_dest(v, from_col, card, t0) == Some(t0)) {
        lemma_first_ttd_bounds(v, from_col, card, t0 + 1, tc);
    }
}

proof fn lemma_first_wt_bounds(v: StateView, c0: int, c: int)
    requires
        0 <= c0,
        first_wt_dest(v, c0) == Some(c),
    ensures
        c0 <= c < 7,
    decreases 7 - c0,
{
    if c0 < 7 && !(first_wt_dest(v, c0) == Some(c0)) {
        lemma_first_wt_bounds(v, c0 + 1, c);
    }
}

/// Every column index a hint names is in range.
pub proof fn lemma_hint_spec_bounds(v: StateView)
    ensures
        match hint_spec(v) {
            Some(Hint::TableauToFoundation { card, from_col }) => from_col < 7,
            Some(Hint::TableauToTableau { card, from_col, to_col }) => from_col < 7 && to_col < 7,
            Some(Hint::WasteToTableau { card, to_col }) => to_col < 7,
            _ => true,
        },
{
    match first_tableau_foundation_target(v, 0) {
        Some((c, f)) => {
            lemma_first_tf_bounds(v, 0, c, f);
        },
        None => {
            match first_tt_hint(v, 0) {
                Some((fc, tc)) => {
                    lemma_first_tt_bounds(v, 0, fc, tc);
                },
                None => {
                    if v.waste.len() > 0 {
                        match first_wt_dest(v, 0) {
                            Some(c) => {
                                lemma_first_wt_bounds(v, 0, c);
                            },
                            None => {},
                        }
                    }
                },
            }
        },
    }
}

impl GameState {
    /// The structured hint: the search of `hint_spec`, read-only.
    pub fn get_hint_move(&self) -> (h: Option<Hint>)
        requires
            self.wf(),
        ensures
            h == hint_spec(self@),
    {
        // a tableau top card for a foundation
        let mut col: usize = 0;
        while col < 7
            invariant
                self.wf(),
                col <= 7,
                first_tableau_foundation_target(self@, 0) == first_tableau_foundation_target(
                    self@,
                    col as int,
                ),
            decreases 7 - col,
        {
            let n = self.tableau[col].len();
            if n > 0 {
                let card = self.tableau[col][n - 1];
                if card.face_up {
                    match self.find_foundation_for(card) {
                        Some(_) => {
                            proof {
                                assert(card == self@.tableau[col as int].last());
                            }
                            return Some(Hint::TableauToFoundation { card, from_col: col });
                        },
                        None => {
                            proof {
                                assert(first_tableau_foundation_target(self@, col as int)
                                    == first_tableau_foundation_target(self@, col as int + 1));
                            }
                        },
                    }
                } else {
                    proof {
                        assert(first_tableau_foundation_target(self@, col as int)
                            == first_tableau_foundation_target(self@, col as int + 1));
                    }
                }
            } else {
                proof {
                    assert(first_tableau_foundation_target(self@, col as int)
                        == first_tableau_foundation_target(self@, col as int + 1));
                }
            }
            col = col + 1;
        }

        // a run between tableau columns
        let mut fc: usize = 0;
        while fc < 7
            invariant
                self.wf(),
                fc <= 7,
                first_tableau_foundation_target(self@, 0) is None,
                first_tt_hint(self@, 0) == first_tt_hint(self@, fc as int),
            decreases 7 - fc,
        {
            let n = self.tableau[fc].len();
            if n > 0 {
                let s = first_face_up(&self.tableau[fc]);
                let card = if s < n {
                    self.tableau[fc][s]
                } else {
                    self.tableau[fc][0]
                };
                proof {
                    assert(card == hint_run_card(self@, fc as int));
                }
                let mut tc: usize = 0;
                while tc < 7
                    invariant
                        self.wf(),
                        fc < 7,
                        tc <= 7,
                        self@.tableau[fc as int].len() > 0,
                        first_tableau_foundation_target(self@, 0) is None,
                        first_tt_hint(self@, 0) == first_tt_hint(self@, fc as int),
                        card == hint_run_card(self@, fc as int),
                        first_tt_dest(self@, fc as int, card, 0) == first_tt_dest(
                            self@,
                            fc as int,
                            card,
                            tc as int,
                        ),
                    decreases 7 - tc,
                {
                    if tc != fc && self.is_valid_tableau_move(&card, tc) {
                        proof {
                            assert(first_tt_dest(self@, fc as int, card, tc as int) == Some(
                                tc as int,
                            ));
                        }
                        return Some(Hint::TableauToTableau { card, from_col: fc, to_col: tc });
                    }
                    proof {
                        assert(first_tt_dest(self@, fc as int, card, tc as int) == first_tt_dest(
                            self@,
                            fc as int,
                            card,
                            tc as int + 1,
                        ));
                    }
                    tc = tc + 1;
                }
                proof {
                    assert(first_tt_hint(self@, fc as int) == first_tt_hint(self@, fc as int + 1));
                }
            } else {
                proof {
                    assert(first_tt_hint(self@, fc as int) == first_tt_hint(self@, fc as int + 1));
                }
            }
            fc = fc + 1;
        }

        // the waste top onto a column
        if self.waste.len() > 0 {
            let card = self.waste[self.waste.len() - 1];
            let mut col: usize = 0;
            while col < 7
                invariant
                    self.wf(),
                    col <= 7,
                    self@.waste.len() > 0,
                    card == self@.waste.last(),
                    first_tableau_foundation_target(self@, 0) is None,
                    first_tt_hint(self@, 0) is None,
                    first_wt_dest(self@, 0) == first_wt_dest(self@, col as int),
                decreases 7 - col,
            {
                if self.is_valid_tableau_move(&card, col) {
                    proof {
                        assert(first_wt_dest(self@, col as int) == Some(col as int));
                    }
                    return Some(Hint::WasteToTableau { card, to_col: col });
                }
                proof {
                    assert(first_wt_dest(self@, col as int) == first_wt_dest(
                        self@,
                        col as int + 1,
                    ));
                }
                col = col + 1;
            }
        }

        // drawing is still possible
        if self.stock.len() > 0 || self.waste.len() > 0 {
            return Some(Hint::DrawFromStock);
        }
        None
    }
}

} // verus!

verus! {

/// The digit naming a column or foundation in a hint, one-based.
pub open spec fn column_str_spec(n: int) -> Seq<char> {
    if n == 1 {
        "1"@
    } else if n == 2 {
        "2"@
    } else if n == 3 {
        "3"@
    } else if n == 4 {
        "4"@
    } else if n == 5 {
        "5"@
    } else if n == 6 {
        "6"@
    } else {
        "7"@
    }
}

fn column_str(n: usize) -> (s: &'static str)
    requires
        1 <= n <= 7,
    ensures
        s@ == column_str_spec(n as int),
{
    if n == 1 {
        "1"
    } else if n == 2 {
        "2"
    } else if n == 3 {
        "3"
    } else if n == 4 {
        "4"
    } else if n == 5 {
        "5"
    } else if n == 6 {
        "6"
    } else {
        "7"
    }
}

/// The sentence a hint renders to, naming columns one-based.
pub open spec fn hint_text_spec(h: Hint) -> Seq<char> {
    match h {
        Hint::TableauToFoundation { card, from_col } => "Move "@ + compact_text_spec(card)
            + " from column "@ + column_str_spec(from_col as int + 1) + " to foundation"@,
        Hint::TableauToTableau { card, from_col, to_col } => "Move "@ + compact_text_spec(card)
            + " from column "@ + column_str_spec(from_col as int + 1) + " to column "@
            + column_str_spec(to_col as int + 1),
        Hint::WasteToTableau { card, to_col } => "Move "@ + compact_text_spec(card)
            + " from waste to column "@ + column_str_spec(to_col as int + 1),
        Hint::DrawFromStock => "Draw from stock"@,
    }
}

/// Render a hint as its sentence.
pub fn hint_text(h: &Hint) -> (s: String)
    requires
        match *h {
            Hint::TableauToFoundation { card, from_col } => from_col < 7,
            Hint::TableauToTableau { card, from_col, to_col } => from_col < 7 && to_col < 7,
            Hint::WasteToTableau { card, to_col } => to_col < 7,
            Hint::DrawFromStock => true,
        },
    ensures
        s@ == hint_text_spec(*h),
{
    match h {
        Hint::TableauToFoundation { card, from_col } => {
            let mut s = String::from_str("Move ");
            s.append(card.to_string_compact().as_str());
            s.append(" from column ");
            s.append(column_str(*from_col + 1));
            s.append(" to foundation");
            s
        },
        Hint::TableauToTableau { card, from_col, to_col } => {
            let mut s = String::from_str("Move ");
            s.append(card.to_string_compact().as_str());
            s.append(" from column ");
            s.append(column_str(*from_col + 1));
            s.append(" to column ");
            s.append(column_str(*to_col + 1));
            s
        },
        Hint::WasteToTableau { card, to_col } => {
            let mut s = String::from_str("Move ");
            s.append(card.to_string_compact().as_str());
            s.append(" from waste to column ");
            s.append(column_str(*to_col + 1));
            s
        },
        Hint::DrawFromStock => String::from_str("Draw from stock"),
    }
}

impl GameState {
    /// The hint as a sentence: `None` exactly when the engine is stuck
    /// (no legal move and both stock and waste empty).
    pub fn get_hint(&self) -> (r: Option<String>)
        requires
            self.wf(),
        ensures
            r is Some <==> hint_spec(self@) is Some,
            r matches Some(s) ==> s@ == hint_text_spec(hint_spec(self@).unwrap()),
    {
        match self.get_hint_move() {
            None => None,
            Some(h) => {
                proof {
                    lemma_hint_spec_bounds(self@);
                }
                Some(hint_text(&h))
            },
        }
    }
}

} // verus!
