//! The move engine: a single relocation of a contiguous face-up run
//! between piles, its legality, its exact effect on the game state, and
//! the enumeration and ranking of all legal moves.

use vstd::prelude::*;
use vstd::multiset::Multiset;
use crate::card::{
    Card, card_id, lemma_pile_ids_append, lemma_pile_ids_drop_last, lemma_pile_ids_push,
    lemma_pile_ids_same, lemma_piles_ids_update, pile_ids, piles_ids,
};
use crate::game::{
    GameState, PileType, StateView, all_ids, foundation_ok, history_saved,
    lemma_history_saved_stack, state_unchanged, tableau_ok, valid_foundation_spec,
    valid_tableau_spec, wf_view,
};

verus! {

/// An addressed position inside the playfield: the pile kind, which pile
/// of that kind, and (for a tableau source) the index of the first card of
/// the moving run.
#[derive(Clone, Copy, PartialEq, Eq, Structural, Debug)]
pub struct MoveLocation {
    pub pile_type: PileType,
    pub pile_index: usize,
    pub card_index: usize,
}

/// A relocation of a contiguous face-up run of cards from one pile to
/// another, together with the bookkeeping that `execute` fills in.
#[derive(Debug)]
pub struct Move {
    pub from: MoveLocation,
    pub to: MoveLocation,
    pub cards: Vec<Card>,
    pub score_change: i32,
    pub flipped_card: Option<(usize, Card)>,
}

// ---------------------------------------------------------------------------
// What a move means, as functions on views.
// ---------------------------------------------------------------------------

/// Whether the source side of a move is usable: the addressed run exists
/// and is entirely face up. The stock is never a move source.
pub open spec fn source_ok(v: StateView, from: MoveLocation) -> bool {
    match from.pile_type {
        PileType::Tableau => {
            &&& from.pile_index < 7
            &&& from.card_index < v.tableau[from.pile_index as int].len()
            &&& forall|j: int|
                from.card_index <= j < v.tableau[from.pile_index as int].len() ==> (#[trigger] v
                    .tableau[from.pile_index as int][j]).face_up
        },
        PileType::Waste => v.waste.len() > 0 && v.waste.last().face_up,
        PileType::Foundation => from.pile_index < 4 && v.foundations[from.pile_index as int].len()
            > 0 && v.foundations[from.pile_index as int].last().face_up,
        PileType::Stock => false,
    }
}

/// The cards a move takes: a tableau suffix, or the single top card of the
/// waste or of a foundation.
pub open spec fn run_of(v: StateView, from: MoveLocation) -> Seq<Card> {
    match from.pile_type {
        PileType::Tableau => v.tableau[from.pile_index as int].skip(from.card_index as int),
        PileType::Waste => seq![v.waste.last()],
        PileType::Foundation => seq![v.foundations[from.pile_index as int].last()],
        PileType::Stock => Seq::empty(),
    }
}

/// Whether the destination accepts the run: a tableau column judges the
/// run's first card; a foundation takes exactly one card. The stock and
/// the waste are never destinations.
pub open spec fn dest_ok(v: StateView, from: MoveLocation, to: MoveLocation) -> bool {
    let run = run_of(v, from);
    match to.pile_type {
        PileType::Tableau => to.pile_index < 7 && valid_tableau_spec(
            run[0],
            v.tableau[to.pile_index as int],
        ),
        PileType::Foundation => run.len() == 1 && to.pile_index < 4 && valid_foundation_spec(
            run[0],
            v.foundations[to.pile_index as int],
        ),
        _ => false,
    }
}

/// Full legality of a move against the current state.
pub open spec fn valid_move_spec(v: StateView, from: MoveLocation, to: MoveLocation) -> bool {
    source_ok(v, from) && dest_ok(v, from, to)
}

/// The playfield with the moving run taken out of its source pile.
pub open spec fn remove_run(v: StateView, from: MoveLocation) -> StateView {
    match from.pile_type {
        PileType::Tableau => StateView {
            tableau: v.tableau.update(
                from.pile_index as int,
                v.tableau[from.pile_index as int].take(from.card_index as int),
            ),
            ..v
        },
        PileType::Waste => StateView { waste: v.waste.drop_last(), ..v },
        PileType::Foundation => StateView {
            foundations: v.foundations.update(
                from.pile_index as int,
                v.foundations[from.pile_index as int].drop_last(),
            ),
            ..v
        },
        PileType::Stock => v,
    }
}

/// The playfield with `run` appended to the destination pile, in order.
pub open spec fn add_run(v: StateView, to: MoveLocation, run: Seq<Card>) -> StateView {
    match to.pile_type {
        PileType::Tableau => StateView {
            tableau: v.tableau.update(
                to.pile_index as int,
                v.tableau[to.pile_index as int] + run,
            ),
            ..v
        },
        PileType::Foundation => StateView {
            foundations: v.foundations.update(
                to.pile_index as int,
                v.foundations[to.pile_index as int] + run,
            ),
            ..v
        },
        _ => v,
    }
}

/// After the run has moved, must a card be flipped? Exactly when the
/// source was a tableau column whose new top card lies face down.
pub open spec fn flip_after(v2: StateView, from: MoveLocation) -> bool {
    &&& from.pile_type == PileType::Tableau
    &&& v2.tableau[from.pile_index as int].len() > 0
    &&& !v2.tableau[from.pile_index as int].last().face_up
}

/// The playfield with the top card of tableau column `c` turned face up.
pub open spec fn flip_top(v: StateView, c: int) -> StateView {
    let col = v.tableau[c];
    StateView {
        tableau: v.tableau.update(
            c,
            col.update(col.len() - 1, (Card { face_up: true, ..col.last() })),
        ),
        ..v
    }
}

/// The score a move earns: 5 to a tableau, 10 to a foundation, plus 5 when
/// it uncovers a face-down card.
pub open spec fn move_score_delta(v: StateView, from: MoveLocation, to: MoveLocation) -> int {
    let base: int = if to.pile_type == PileType::Foundation {
        10
    } else {
        5
    };
    let v2 = add_run(remove_run(v, from), to, run_of(v, from));
    base + if flip_after(v2, from) {
        5int
    } else {
        0int
    }
}

/// The exact effect of a legal move: remove the run from its source,
/// append it to the destination, flip an uncovered card, and update the
/// score and the move counter. The selection is untouched.
pub open spec fn apply_move_spec(v: StateView, from: MoveLocation, to: MoveLocation) -> StateView {
    let run = run_of(v, from);
    let v2 = add_run(remove_run(v, from), to, run);
    let v3 = if flip_after(v2, from) {
        flip_top(v2, from.pile_index as int)
    } else {
        v2
    };
    StateView {
        score: v.score + move_score_delta(v, from, to),
        move_count: v.move_count + 1,
        ..v3
    }
}

// ---------------------------------------------------------------------------
// Conservation of cards under a move.
// ---------------------------------------------------------------------------

proof fn lemma_pile_ids_singleton(c: Card)
    ensures
        pile_ids(seq![c]) == Multiset::<Card>::empty().insert(card_id(c)),
{
    assert(seq![c] =~= Seq::<Card>::empty().push(c));
    lemma_pile_ids_push(Seq::<Card>::empty(), c);
    let f = |x: Card| card_id(x);
    assert(Seq::<Card>::empty().map_values(f) =~= Seq::<Card>::empty());
    broadcast use vstd::seq_lib::group_to_multiset_ensures;
    broadcast use vstd::multiset::group_multiset_axioms;

    assert(Seq::<Card>::empty().to_multiset().len() == 0);
    vstd::multiset::lemma_multiset_empty_len::<Card>(Seq::<Card>::empty().to_multiset());
}

/// Taking a run out of its source removes exactly its identities.
proof fn lemma_remove_run_ids(v: StateView, from: MoveLocation)
    requires
        v.tableau.len() == 7,
        v.foundations.len() == 4,
        source_ok(v, from),
    ensures
        all_ids(v) == all_ids(remove_run(v, from)).add(pile_ids(run_of(v, from))),
{
    broadcast use vstd::multiset::group_multiset_axioms;

    let v1 = remove_run(v, from);
    let run = run_of(v, from);
    match from.pile_type {
        PileType::Tableau => {
            let fc = from.pile_index as int;
            let ci = from.card_index as int;
            let col = v.tableau[fc];
            lemma_pile_ids_append(col.take(ci), col.skip(ci));
            assert(col.take(ci) + col.skip(ci) =~= col);
            lemma_piles_ids_update(v.tableau, fc, col.take(ci));
            assert forall|x: Card|
                all_ids(v).count(x) == all_ids(v1).add(pile_ids(run)).count(x) by {
                assert(piles_ids(v1.tableau).add(pile_ids(col)).count(x) == piles_ids(
                    v.tableau,
                ).add(pile_ids(col.take(ci))).count(x));
                assert(pile_ids(col).count(x) == pile_ids(col.take(ci)).add(
                    pile_ids(col.skip(ci)),
                ).count(x));
            }
            assert(all_ids(v) =~= all_ids(v1).add(pile_ids(run)));
        },
        PileType::Waste => {
            lemma_pile_ids_drop_last(v.waste);
            lemma_pile_ids_singleton(v.waste.last());
            assert(all_ids(v) =~= all_ids(v1).add(pile_ids(run)));
        },
        PileType::Foundation => {
            let fi = from.pile_index as int;
            let fp = v.foundations[fi];
            lemma_pile_ids_drop_last(fp);
            lemma_pile_ids_singleton(fp.last());
            lemma_piles_ids_update(v.foundations, fi, fp.drop_last());
            assert forall|x: Card|
                all_ids(v).count(x) == all_ids(v1).add(pile_ids(run)).count(x) by {
                assert(piles_ids(v1.foundations).add(pile_ids(fp)).count(x) == piles_ids(
                    v.foundations,
                ).add(pile_ids(fp.drop_last())).count(x));
                assert(pile_ids(fp).count(x) == pile_ids(fp.drop_last()).insert(
                    card_id(fp.last()),
                ).count(x));
            }
            assert(all_ids(v) =~= all_ids(v1).add(pile_ids(run)));
        },
        PileType::Stock => {
            assert(false);
        },
    }
}

/// Appending a run to a destination pile adds exactly its identities.
proof fn lemma_add_run_ids(v: StateView, to: MoveLocation, run: Seq<Card>)
    requires
        v.tableau.len() == 7,
        v.foundations.len() == 4,
        to.pile_type == PileType::Tableau && to.pile_index < 7 || to.pile_type
            == PileType::Foundation && to.pile_index < 4,
    ensures
        all_ids(add_run(v, to, run)) == all_ids(v).add(pile_ids(run)),
{
    broadcast use vstd::multiset::group_multiset_axioms;

    let v2 = add_run(v, to, run);
    let ti = to.pile_index as int;
    if to.pile_type == PileType::Tableau {
        let col = v.tableau[ti];
        lemma_pile_ids_append(col, run);
        lemma_piles_ids_update(v.tableau, ti, col + run);
        assert forall|x: Card| all_ids(v2).count(x) == all_ids(v).add(pile_ids(run)).count(x) by {
            assert(piles_ids(v2.tableau).add(pile_ids(col)).count(x) == piles_ids(v.tableau).add(
                pile_ids(col + run),
            ).count(x));
        }
        assert(all_ids(v2) =~= all_ids(v).add(pile_ids(run)));
    } else {
        let fp = v.foundations[ti];
        lemma_pile_ids_append(fp, run);
        lemma_piles_ids_update(v.foundations, ti, fp + run);
        assert forall|x: Card| all_ids(v2).count(x) == all_ids(v).add(pile_ids(run)).count(x) by {
            assert(piles_ids(v2.foundations).add(pile_ids(fp)).count(x) == piles_ids(
                v.foundations,
            ).add(pile_ids(fp + run)).count(x));
        }
        assert(all_ids(v2) =~= all_ids(v).add(pile_ids(run)));
    }
}

/// Flipping the top card of a column never changes any identity.
proof fn lemma_flip_top_ids(v: StateView, c: int)
    requires
        v.tableau.len() == 7,
        0 <= c < 7,
        v.tableau[c].len() > 0,
    ensures
        all_ids(flip_top(v, c)) == all_ids(v),
{
    broadcast use vstd::multiset::group_multiset_axioms;

    let col = v.tableau[c];
    let col2 = col.update(col.len() - 1, (Card { face_up: true, ..col.last() }));
    lemma_pile_ids_same(col2, col);
    lemma_piles_ids_update(v.tableau, c, col2);
    let v3 = flip_top(v, c);
    assert forall|x: Card| all_ids(v3).count(x) == all_ids(v).count(x) by {
        assert(piles_ids(v3.tableau).add(pile_ids(col)).count(x) == piles_ids(v.tableau).add(
            pile_ids(col2),
        ).count(x));
    }
    assert(all_ids(v3) =~= all_ids(v));
}

/// A legal move preserves the playfield invariant.
pub proof fn lemma_apply_move_wf(v: StateView, from: MoveLocation, to: MoveLocation)
    requires
        wf_view(v),
        valid_move_spec(v, from, to),
    ensures
        wf_view(apply_move_spec(v, from, to)),
{
    broadcast use vstd::multiset::group_multiset_axioms;

    let run = run_of(v, from);
    let v1 = remove_run(v, from);
    let v2 = add_run(v1, to, run);
    let flip = flip_after(v2, from);
    let v3 = if flip {
        flip_top(v2, from.pile_index as int)
    } else {
        v2
    };
    let vr = apply_move_spec(v, from, to);

    // conservation of the 52 cards
    lemma_remove_run_ids(v, from);
    lemma_add_run_ids(v1, to, run);
    if flip {
        lemma_flip_top_ids(v2, from.pile_index as int);
    }
    assert(all_ids(v2) == all_ids(v));
    assert(all_ids(vr) == all_ids(v3));

    // the run is nonempty and entirely face up
    assert(run.len() > 0);
    assert forall|j: int| 0 <= j < run.len() implies (#[trigger] run[j]).face_up by {
        if from.pile_type == PileType::Tableau {
            let fc = from.pile_index as int;
            let ci = from.card_index as int;
            assert(run[j] == v.tableau[fc][ci + j]);
        }
    }

    // pile shapes of the result
    assert forall|c: int| 0 <= c < 7 implies tableau_ok(#[trigger] vr.tableau[c]) by {
        lemma_move_tableau_ok(v, from, to, c);
    }
    assert forall|f: int| 0 <= f < 4 implies foundation_ok(#[trigger] vr.foundations[f]) by {
        lemma_move_foundation_ok(v, from, to, f);
    }

    // stock and waste orientations
    assert(vr.stock == v.stock);
    assert forall|i: int| 0 <= i < vr.waste.len() implies (#[trigger] vr.waste[i]).face_up by {
        if from.pile_type == PileType::Waste {
            assert(vr.waste[i] == v.waste.drop_last()[i]);
            assert(v.waste[i].face_up);
        } else {
            assert(vr.waste[i] == v.waste[i]);
        }
    }
}

/// Each tableau column of the post-move playfield is still well formed.
proof fn lemma_move_tableau_ok(v: StateView, from: MoveLocation, to: MoveLocation, c: int)
    requires
        wf_view(v),
        valid_move_spec(v, from, to),
        0 <= c < 7,
    ensures
        tableau_ok(apply_move_spec(v, from, to).tableau[c]),
{
    let run = run_of(v, from);
    let v1 = remove_run(v, from);
    let v2 = add_run(v1, to, run);
    let flip = flip_after(v2, from);
    let vr = apply_move_spec(v, from, to);
    let p = vr.tableau[c];

    // the run is entirely face up
    assert forall|j: int| 0 <= j < run.len() implies (#[trigger] run[j]).face_up by {
        if from.pile_type == PileType::Tableau {
            let fc = from.pile_index as int;
            let ci = from.card_index as int;
            assert(run[j] == v.tableau[fc][ci + j]);
        }
    }

    let from_here = from.pile_type == PileType::Tableau && from.pile_index as int == c;
    let to_here = to.pile_type == PileType::Tableau && to.pile_index as int == c;
    if from_here && to_here {
        // the run returns to its own column: the column is unchanged
        let col = v.tableau[c];
        let ci = from.card_index as int;
        assert(col.take(ci) + col.skip(ci) =~= col);
        assert(v2.tableau[c] == col);
        assert(!flip_after(v2, from));
        assert(p == col);
    } else if to_here {
        // cards appended on a face-up top (or a King on an empty column)
        let col = v.tableau[c];
        assert(v1.tableau[c] == col);
        assert(p == col + run);
        assert forall|i: int, j: int| #![trigger p[i], p[j]]
            0 <= i <= j < p.len() && p[i].face_up implies p[j].face_up by {
            if j >= col.len() {
                assert(p[j] == run[j - col.len()]);
            } else {
                assert(p[i] == col[i] && p[j] == col[j]);
            }
        }
        assert(p.last() == run.last());
    } else if from_here {
        // the column lost its face-up suffix from `card_index` on
        let col = v.tableau[c];
        let ci = from.card_index as int;
        let rem = col.take(ci);
        assert(v2.tableau[c] == rem);
        if flip {
            let last = rem.len() - 1;
            let p2 = rem.update(last, (Card { face_up: true, ..rem.last() }));
            assert(p == p2);
            assert forall|i: int, j: int| #![trigger p[i], p[j]]
                0 <= i <= j < p.len() && p[i].face_up implies p[j].face_up by {
                if j < last {
                    assert(p[i] == col[i] && p[j] == col[j]);
                }
            }
            assert(p.last().face_up);
        } else {
            assert(p == rem);
            assert forall|i: int, j: int| #![trigger p[i], p[j]]
                0 <= i <= j < p.len() && p[i].face_up implies p[j].face_up by {
                assert(p[i] == col[i] && p[j] == col[j]);
            }
        }
    } else {
        assert(p == v.tableau[c]);
    }
}

/// Each foundation of the post-move playfield is still well formed.
proof fn lemma_move_foundation_ok(v: StateView, from: MoveLocation, to: MoveLocation, f: int)
    requires
        wf_view(v),
        valid_move_spec(v, from, to),
        0 <= f < 4,
    ensures
        foundation_ok(apply_move_spec(v, from, to).foundations[f]),
{
    let run = run_of(v, from);
    let v1 = remove_run(v, from);
    let v2 = add_run(v1, to, run);
    let vr = apply_move_spec(v, from, to);
    let p = vr.foundations[f];

    let from_here = from.pile_type == PileType::Foundation && from.pile_index as int == f;
    let to_here = to.pile_type == PileType::Foundation && to.pile_index as int == f;
    if from_here && to_here {
        // taking the top card and putting it back would need rank == rank + 1
        let fp = v.foundations[f];
        assert(run[0] == fp.last());
        assert(valid_foundation_spec(fp.last(), fp));
        assert(false);
    } else if to_here {
        let fp = v.foundations[f];
        assert(v1.foundations[f] == fp);
        assert(p == fp + run);
        assert(run.len() == 1);
        let card = run[0];
        assert(card.face_up) by {
            if from.pile_type == PileType::Tableau {
                let fc = from.pile_index as int;
                let ci = from.card_index as int;
                assert(card == v.tableau[fc][ci]);
            }
        }
        assert forall|j: int|
            0 <= j < p.len() implies (#[trigger] p[j]).rank.value_spec() == j + 1 && p[j].suit
            == p[0].suit && p[j].face_up by {
            if j < fp.len() {
                assert(p[j] == fp[j]);
            } else {
                assert(p[j] == card);
                if fp.len() > 0 {
                    assert(fp.last() == fp[fp.len() - 1]);
                }
            }
        }
    } else if from_here {
        let fp = v.foundations[f];
        assert(p == fp.drop_last());
        assert forall|j: int|
            0 <= j < p.len() implies (#[trigger] p[j]).rank.value_spec() == j + 1 && p[j].suit
            == p[0].suit && p[j].face_up by {
            assert(p[j] == fp[j]);
        }
    } else {
        assert(p == v.foundations[f]);
    }
}

} // verus!

verus! {

impl GameState {
    /// Carry out a validated move: save a snapshot, relocate the run, flip
    /// the uncovered card if there is one, and update score and move
    /// counter. Returns the uncovered card (still face down) when the move
    /// revealed one.
    pub(crate) fn apply_move(&mut self, from: MoveLocation, to: MoveLocation) -> (flipped: Option<
        Card,
    >)
        requires
            old(self).wf(),
            valid_move_spec(old(self)@, from, to),
            old(self).score + 15 <= i32::MAX,
            old(self).move_count < u32::MAX,
        ensures
            final(self).wf(),
            final(self)@ == apply_move_spec(old(self)@, from, to),
            history_saved(*old(self), *final(self)),
            flipped is Some <==> flip_after(
                add_run(remove_run(old(self)@, from), to, run_of(old(self)@, from)),
                from,
            ),
            flipped is Some ==> flipped == Some(
                add_run(
                    remove_run(old(self)@, from),
                    to,
                    run_of(old(self)@, from),
                ).tableau[from.pile_index as int].last(),
            ),
    {
        let ghost v0 = self@;
        self.save_undo_state();

        // take the run out of its source pile
        let run: Vec<Card> = if from.pile_type == PileType::Tableau {
            let r = self.tableau[from.pile_index].split_off(from.card_index);
            proof {
                assert(self@.tableau =~= remove_run(v0, from).tableau);
                assert(self@ =~= remove_run(v0, from));
                assert(r@ =~= run_of(v0, from));
            }
            r
        } else if from.pile_type == PileType::Waste {
            let c = self.waste.pop().unwrap();
            let mut r: Vec<Card> = Vec::new();
            r.push(c);
            proof {
                assert(r@ =~= run_of(v0, from));
                assert(self@.waste =~= v0.waste.drop_last());
                assert(self@ =~= remove_run(v0, from));
            }
            r
        } else {
            let c = self.foundations[from.pile_index].pop().unwrap();
            let mut r: Vec<Card> = Vec::new();
            r.push(c);
            proof {
                assert(r@ =~= run_of(v0, from));
                assert(self@.foundations =~= remove_run(v0, from).foundations);
                assert(self@ =~= remove_run(v0, from));
            }
            r
        };

        // append it to the destination pile
        let ghost v1 = remove_run(v0, from);
        if to.pile_type == PileType::Tableau {
            let tc = to.pile_index;
            let ghost col0 = v1.tableau[tc as int];
            proof {
                assert(v1.tableau.update(tc as int, col0 + run@.take(0)) =~= v1.tableau);
                assert(self@ =~= (StateView {
                    tableau: v1.tableau.update(tc as int, col0 + run@.take(0)),
                    ..v1
                }));
            }
            let mut i: usize = 0;
            while i < run.len()
                invariant
                    i <= run@.len(),
                    tc < 7,
                    v1.tableau.len() == 7,
                    self.tableau@.len() == 7,
                    self@ == (StateView {
                        tableau: v1.tableau.update(tc as int, col0 + run@.take(i as int)),
                        ..v1
                    }),
                    history_saved(*old(self), *self),
                decreases run@.len() - i,
            {
                let ghost tab_before = self.tableau@;
                proof {
                    assert(self@.tableau == v1.tableau.update(
                        tc as int,
                        col0 + run@.take(i as int),
                    ));
                    assert(self@.tableau[tc as int] == col0 + run@.take(i as int));
                    assert(tab_before.map_values(|p: Vec<Card>| p@)[tc as int] == tab_before[tc as int]@);
                    assert(tab_before[tc as int]@ == col0 + run@.take(i as int));
                }
                self.tableau[tc].push(run[i]);
                proof {
                    assert(col0 + run@.take(i as int + 1) =~= (col0 + run@.take(i as int)).push(
                        run@[i as int],
                    ));
                    assert(self.tableau@ == tab_before.update(
                        tc as int,
                        self.tableau@[tc as int],
                    ));
                    assert(self.tableau@[tc as int]@ == tab_before[tc as int]@.push(
                        run@[i as int],
                    ));
                    assert(tab_before[tc as int]@ == col0 + run@.take(i as int));
                    assert forall|k: int|
                        0 <= k < 7 implies self@.tableau[k] == v1.tableau.update(
                        tc as int,
                        col0 + run@.take(i as int + 1),
                    )[k] by {
                        assert(self@.tableau[k] == self.tableau@[k]@);
                        if k == tc as int {
                            assert(self.tableau@[k]@ == col0 + run@.take(i as int + 1));
                        } else {
                            assert(self.tableau@[k] == tab_before[k]);
                            assert(tab_before.map_values(|p: Vec<Card>| p@)[k] == tab_before[k]@);
                            assert(tab_before.map_values(|p: Vec<Card>| p@)[k] == v1.tableau.update(
                                tc as int,
                                col0 + run@.take(i as int),
                            )[k]);
                        }
                    }
                    assert(self@.tableau =~= v1.tableau.update(
                        tc as int,
                        col0 + run@.take(i as int + 1),
                    ));
                    assert(self@ =~= (StateView {
                        tableau: v1.tableau.update(tc as int, col0 + run@.take(i as int + 1)),
                        ..v1
                    }));
                }
                i = i + 1;
            }
            proof {
                assert(run@.take(run@.len() as int) =~= run@);
                assert(self@ =~= add_run(v1, to, run_of(v0, from)));
            }
        } else {
            let c = run[0];
            self.foundations[to.pile_index].push(c);
            proof {
                assert(v1.foundations[to.pile_index as int].push(c) =~= v1.foundations[to.pile_index as int] + run_of(v0, from));
                assert(self@.foundations =~= add_run(v1, to, run_of(v0, from)).foundations);
                assert(self@ =~= add_run(v1, to, run_of(v0, from)));
            }
        }

        // flip the card the move uncovered, if any
        let ghost v2 = add_run(v1, to, run_of(v0, from));
        let mut flipped: Option<Card> = None;
        if from.pile_type == PileType::Tableau {
            let fc = from.pile_index;
            let n = self.tableau[fc].len();
            if n > 0 {
                let topc = self.tableau[fc][n - 1];
                if !topc.face_up {
                    let mut c2 = self.tableau[fc].pop().unwrap();
                    c2.face_up = true;
                    self.tableau[fc].push(c2);
                    flipped = Some(topc);
                    proof {
                        let col = v2.tableau[fc as int];
                        assert(col.drop_last().push(c2) =~= col.update(
                            col.len() - 1,
                            (Card { face_up: true, ..col.last() }),
                        ));
                        assert(self@.tableau =~= flip_top(v2, fc as int).tableau);
                        assert(self@ =~= flip_top(v2, fc as int));
                    }
                }
            }
        }
        proof {
            assert(flipped is Some <==> flip_after(v2, from));
        }

        // scoring and counters
        let base: i32 = if to.pile_type == PileType::Foundation {
            10
        } else {
            5
        };
        let bonus: i32 = if flipped.is_some() {
            5
        } else {
            0
        };
        self.score = self.score + base + bonus;
        self.move_count = self.move_count + 1;
        proof {
            lemma_apply_move_wf(v0, from, to);
            assert(self@ =~= apply_move_spec(v0, from, to));
            lemma_history_saved_stack(*old(self), *self);
        }
        flipped
    }
}

} // verus!

verus! {

impl Move {
    /// A move in its initial form: no score recorded, nothing flipped yet.
    pub fn new(from: MoveLocation, to: MoveLocation, cards: Vec<Card>) -> (m: Move)
        ensures
            m.from == from,
            m.to == to,
            m.cards == cards,
            m.score_change == 0,
            m.flipped_card is None,
    {
        Move { from, to, cards, score_change: 0, flipped_card: None }
    }

    /// Re-check this move's legality against the current state: the run
    /// must exist and be entirely face up, and the destination must accept
    /// it. Validity computed earlier is never trusted across mutations.
    pub fn is_valid(&self, game: &GameState) -> (r: bool)
        requires
            game.wf(),
        ensures
            r == valid_move_spec(game@, self.from, self.to),
    {
        let first: Card;
        let run_len: usize;
        match self.from.pile_type {
            PileType::Tableau => {
                let col_i = self.from.pile_index;
                if col_i >= 7 {
                    return false;
                }
                let ci = self.from.card_index;
                let n = game.tableau[col_i].len();
                if ci >= n {
                    return false;
                }
                let mut j = ci;
                while j < n
                    invariant
                        game.wf(),
                        col_i < 7,
                        col_i == self.from.pile_index,
                        ci == self.from.card_index,
                        self.from.pile_type == PileType::Tableau,
                        n == game@.tableau[col_i as int].len(),
                        ci <= j <= n,
                        forall|k: int|
                            ci <= k < j ==> (#[trigger] game@.tableau[col_i as int][k]).face_up,
                    decreases n - j,
                {
                    if !game.tableau[col_i][j].face_up {
                        proof {
                            assert(!game@.tableau[self.from.pile_index as int][j as int].face_up);
                            assert(self.from.card_index <= (j as int) < game@.tableau[self.from.pile_index as int].len());
                            assert(!source_ok(game@, self.from));
                        }
                        return false;
                    }
                    j = j + 1;
                }
                first = game.tableau[col_i][ci];
                run_len = n - ci;
                proof {
                    assert(run_of(game@, self.from)[0] == first);
                    assert(run_of(game@, self.from).len() == run_len);
                }
            },
            PileType::Waste => {
                if game.waste.len() == 0 {
                    return false;
                }
                let c = game.waste[game.waste.len() - 1];
                if !c.face_up {
                    return false;
                }
                first = c;
                run_len = 1;
            },
            PileType::Foundation => {
                let fi = self.from.pile_index;
                if fi >= 4 {
                    return false;
                }
                let n = game.foundations[fi].len();
                if n == 0 {
                    return false;
                }
                let c = game.foundations[fi][n - 1];
                if !c.face_up {
                    return false;
                }
                first = c;
                run_len = 1;
            },
            PileType::Stock => {
                return false;
            },
        }
        match self.to.pile_type {
            PileType::Tableau => {
                if self.to.pile_index >= 7 {
                    return false;
                }
                game.is_valid_tableau_move(&first, self.to.pile_index)
            },
            PileType::Foundation => {
                if run_len != 1 {
                    return false;
                }
                if self.to.pile_index >= 4 {
                    return false;
                }
                game.is_valid_foundation_move(&first, self.to.pile_index)
            },
            _ => false,
        }
    }

    /// Validate and, if legal, carry out this move, filling in the score
    /// delta and the flipped card. An illegal move returns false and
    /// leaves the game exactly as it was: no pile, score, counter or
    /// history changes.
    pub fn execute(&mut self, game: &mut GameState) -> (r: bool)
        requires
            old(game).wf(),
            old(game).score + 15 <= i32::MAX,
            old(game).move_count < u32::MAX,
        ensures
            r == valid_move_spec(old(game)@, old(self).from, old(self).to),
            final(self).from == old(self).from,
            final(self).to == old(self).to,
            final(self).cards == old(self).cards,
            final(game).wf(),
            !r ==> state_unchanged(*old(game), *final(game)) && *final(self) == *old(self),
            r ==> {
                let v2 = add_run(
                    remove_run(old(game)@, old(self).from),
                    old(self).to,
                    run_of(old(game)@, old(self).from),
                );
                &&& final(game)@ == apply_move_spec(old(game)@, old(self).from, old(self).to)
                &&& history_saved(*old(game), *final(game))
                &&& final(self).score_change == move_score_delta(
                    old(game)@,
                    old(self).from,
                    old(self).to,
                )
                &&& flip_after(v2, old(self).from) ==> final(self).flipped_card == Some(
                    (old(self).from.pile_index, v2.tableau[old(self).from.pile_index as int].last()),
                )
                &&& !flip_after(v2, old(self).from) ==> final(self).flipped_card == old(
                    self,
                ).flipped_card
            },
    {
        if !self.is_valid(game) {
            return false;
        }
        let flipped = game.apply_move(self.from, self.to);
        let base: i32 = if self.to.pile_type == PileType::Foundation {
            10
        } else {
            5
        };
        match flipped {
            Some(c) => {
                self.flipped_card = Some((self.from.pile_index, c));
                self.score_change = base + 5;
            },
            None => {
                self.score_change = base;
            },
        }
        true
    }
}

impl Clone for Move {
    /// A field-for-field copy of the move.
    fn clone(&self) -> (r: Move)
        ensures
            r.from == self.from,
            r.to == self.to,
            r.cards@ == self.cards@,
            r.score_change == self.score_change,
            r.flipped_card == self.flipped_card,
    {
        Move {
            from: self.from,
            to: self.to,
            cards: crate::game::clone_pile(&self.cards),
            score_change: self.score_change,
            flipped_card: self.flipped_card,
        }
    }
}

/// Build a move from `from` to `to`, validate it, and carry it out.
/// Returns whether it was legal and applied; an illegal move (including
/// any out-of-range index) leaves the state untouched.
pub fn attempt_move(game: &mut GameState, from: MoveLocation, to: MoveLocation) -> (r: bool)
    requires
        old(game).wf(),
        old(game).score + 15 <= i32::MAX,
        old(game).move_count < u32::MAX,
    ensures
        r == valid_move_spec(old(game)@, from, to),
        final(game).wf(),
        !r ==> state_unchanged(*old(game), *final(game)),
        r ==> final(game)@ == apply_move_spec(old(game)@, from, to) && history_saved(
            *old(game),
            *final(game),
        ),
{
    let mut mv = Move::new(from, to, Vec::new());
    mv.execute(game)
}

} // verus!

verus! {

// ---------------------------------------------------------------------------
// Opportunistic foundation moves: the shared first-match scans.
// ---------------------------------------------------------------------------

/// The canonical source location for the waste's top card.
pub open spec fn waste_top_loc(v: StateView) -> MoveLocation {
    MoveLocation {
        pile_type: PileType::Waste,
        pile_index: 0,
        card_index: (v.waste.len() - 1) as usize,
    }
}

/// The canonical source location for the top card of tableau column `c`.
pub open spec fn tab_top_loc(v: StateView, c: int) -> MoveLocation {
    MoveLocation {
        pile_type: PileType::Tableau,
        pile_index: c as usize,
        card_index: (v.tableau[c].len() - 1) as usize,
    }
}

/// The canonical destination location for foundation `f`.
pub open spec fn foundation_loc(v: StateView, f: int) -> MoveLocation {
    MoveLocation {
        pile_type: PileType::Foundation,
        pile_index: f as usize,
        card_index: v.foundations[f].len() as usize,
    }
}

/// The first foundation from `f` upward that accepts `card`.
pub open spec fn first_foundation_for(v: StateView, card: Card, f: int) -> Option<int>
    decreases 4 - f,
{
    if f < 0 || f >= 4 {
        None
    } else if valid_foundation_spec(card, v.foundations[f]) {
        Some(f)
    } else {
        first_foundation_for(v, card, f + 1)
    }
}

/// The first tableau column from `col` leftward-to-rightward whose face-up
/// top card can move to some foundation, with that foundation's index.
pub open spec fn first_tableau_foundation_target(v: StateView, col: int) -> Option<(int, int)>
    decreases 7 - col,
{
    if col < 0 || col >= 7 {
        None
    } else {
        let p = v.tableau[col];
        if p.len() > 0 && p.last().face_up && first_foundation_for(v, p.last(), 0) is Some {
            Some((col, first_foundation_for(v, p.last(), 0).unwrap()))
        } else {
            first_tableau_foundation_target(v, col + 1)
        }
    }
}

/// The first foundation that accepts the waste's top card, if any.
pub open spec fn waste_foundation_target(v: StateView) -> Option<int> {
    if v.waste.len() > 0 {
        first_foundation_for(v, v.waste.last(), 0)
    } else {
        None
    }
}

/// A found foundation target yields a legal move.
proof fn lemma_foundation_target_valid(v: StateView, card: Card, f: int)
    requires
        wf_view(v),
        0 <= f < 4,
        valid_foundation_spec(card, v.foundations[f]),
    ensures
        v.waste.len() > 0 && card == v.waste.last() ==> valid_move_spec(
            v,
            waste_top_loc(v),
            foundation_loc(v, f),
        ),
        forall|c: int|
            0 <= c < 7 && v.tableau[c].len() > 0 && v.tableau[c].last().face_up && card
                == v.tableau[c].last() ==> valid_move_spec(
                v,
                #[trigger] tab_top_loc(v, c),
                foundation_loc(v, f),
            ),
{
    crate::game::lemma_wf_pile_bounds(v);
    if v.waste.len() > 0 && card == v.waste.last() {
        assert(run_of(v, waste_top_loc(v)) =~= seq![card]);
    }
    assert forall|c: int|
        0 <= c < 7 && v.tableau[c].len() > 0 && v.tableau[c].last().face_up && card
            == v.tableau[c].last() implies valid_move_spec(
        v,
        #[trigger] tab_top_loc(v, c),
        foundation_loc(v, f),
    ) by {
        let p = v.tableau[c];
        let from = tab_top_loc(v, c);
        assert(from.card_index == p.len() - 1);
        assert(run_of(v, from) =~= seq![card]);
    }
}

/// `first_foundation_for` returns `None` exactly when no foundation from
/// `f` upward accepts the card, and otherwise the least accepting index.
proof fn lemma_first_foundation_none(v: StateView, card: Card, f: int)
    requires
        first_foundation_for(v, card, f) is None,
        0 <= f,
    ensures
        forall|k: int| f <= k < 4 ==> !valid_foundation_spec(card, #[trigger] v.foundations[k]),
    decreases 4 - f,
{
    if f < 4 {
        lemma_first_foundation_none(v, card, f + 1);
    }
}

impl GameState {
    /// Scan the four foundations for the first that accepts `card`.
    pub(crate) fn find_foundation_for(&self, card: Card) -> (r: Option<usize>)
        requires
            self@.foundations.len() == 4,
        ensures
            match r {
                Some(f) => f < 4 && Some(f as int) == first_foundation_for(self@, card, 0)
                    && valid_foundation_spec(card, self@.foundations[f as int]),
                None => first_foundation_for(self@, card, 0) is None,
            },
    {
        let mut f: usize = 0;
        while f < 4
            invariant
                f <= 4,
                self@.foundations.len() == 4,
                first_foundation_for(self@, card, 0) == first_foundation_for(
                    self@,
                    card,
                    f as int,
                ),
            decreases 4 - f,
        {
            if self.is_valid_foundation_move(&card, f) {
                proof {
                    assert(first_foundation_for(self@, card, f as int) == Some(f as int));
                }
                return Some(f);
            }
            f = f + 1;
        }
        None
    }

    /// Try a single opportunistic move to a foundation: the waste's top
    /// card first, then the face-up top card of each tableau column left
    /// to right. Applies the first legal move found (with the usual
    /// scoring and card flip) and reports whether one was made.
    pub fn auto_move_to_foundation(&mut self) -> (r: bool)
        requires
            old(self).wf(),
            old(self).score + 15 <= i32::MAX,
            old(self).move_count < u32::MAX,
        ensures
            final(self).wf(),
            match waste_foundation_target(old(self)@) {
                Some(f) => r && final(self)@ == apply_move_spec(
                    old(self)@,
                    waste_top_loc(old(self)@),
                    foundation_loc(old(self)@, f),
                ) && history_saved(*old(self), *final(self)),
                None => match first_tableau_foundation_target(old(self)@, 0) {
                    Some((c, f)) => r && final(self)@ == apply_move_spec(
                        old(self)@,
                        tab_top_loc(old(self)@, c),
                        foundation_loc(old(self)@, f),
                    ) && history_saved(*old(self), *final(self)),
                    None => !r && state_unchanged(*old(self), *final(self)),
                },
            },
    {
        let ghost v0 = self@;
        if self.waste.len() > 0 {
            let card = self.waste[self.waste.len() - 1];
            match self.find_foundation_for(card) {
                Some(f) => {
                    let from = MoveLocation {
                        pile_type: PileType::Waste,
                        pile_index: 0,
                        card_index: self.waste.len() - 1,
                    };
                    let to = MoveLocation {
                        pile_type: PileType::Foundation,
                        pile_index: f,
                        card_index: self.foundations[f].len(),
                    };
                    proof {
                        crate::game::lemma_wf_pile_bounds(v0);
                        lemma_foundation_target_valid(v0, card, f as int);
                        assert(from == waste_top_loc(v0));
                        assert(to == foundation_loc(v0, f as int));
                    }
                    self.apply_move(from, to);
                    return true;
                },
                None => {},
            }
        }
        let mut col: usize = 0;
        while col < 7
            invariant
                col <= 7,
                *self == *old(self),
                self.wf(),
                waste_foundation_target(self@) is None,
                first_tableau_foundation_target(self@, 0) == first_tableau_foundation_target(
                    self@,
                    col as int,
                ),
                self.score + 15 <= i32::MAX,
                self.move_count < u32::MAX,
            decreases 7 - col,
        {
            let n = self.tableau[col].len();
            if n > 0 {
                let card = self.tableau[col][n - 1];
                if card.face_up {
                    match self.find_foundation_for(card) {
                        Some(f) => {
                            let from = MoveLocation {
                                pile_type: PileType::Tableau,
                                pile_index: col,
                                card_index: n - 1,
                            };
                            let to = MoveLocation {
                                pile_type: PileType::Foundation,
                                pile_index: f,
                                card_index: self.foundations[f].len(),
                            };
                            proof {
                                crate::game::lemma_wf_pile_bounds(self@);
                                assert(card == self@.tableau[col as int].last());
                                lemma_foundation_target_valid(self@, card, f as int);
                                assert(from == tab_top_loc(self@, col as int));
                                assert(to == foundation_loc(self@, f as int));
                                assert(first_tableau_foundation_target(self@, col as int)
                                    == Some((col as int, f as int)));
                            }
                            self.apply_move(from, to);
                            return true;
                        },
                        None => {
                            proof {
                                assert(first_tableau_foundation_target(self@, col as int)
                                    == first_tableau_foundation_target(self@, col as int + 1));
                            }
                        },
                    }
                } else {
                    proof {
                        assert(first_tableau_foundation_target(self@, col as int)
                            == first_tableau_foundation_target(self@, col as int + 1));
                    }
                }
            } else {
                proof {
                    assert(first_tableau_foundation_target(self@, col as int)
                        == first_tableau_foundation_target(self@, col as int + 1));
                }
            }
            col = col + 1;
        }
        false
    }
}

} // verus!

verus! {

// ---------------------------------------------------------------------------
// Bounded auto-completion.
// ---------------------------------------------------------------------------

/// The move one auto-completion step makes: the first face-up tableau top
/// card (columns left to right, foundations in index order) that can move
/// to a foundation; failing that, the waste's top card.
pub open spec fn auto_step_move(v: StateView) -> Option<(MoveLocation, MoveLocation)> {
    match first_tableau_foundation_target(v, 0) {
        Some((c, f)) => Some((tab_top_loc(v, c), foundation_loc(v, f))),
        None => match waste_foundation_target(v) {
            Some(f) => Some((waste_top_loc(v), foundation_loc(v, f))),
            None => None,
        },
    }
}

/// Up to `fuel` auto-completion steps, stopping early when no step is
/// possible.
pub open spec fn auto_run(v: StateView, fuel: nat) -> StateView
    decreases fuel,
{
    if fuel == 0 {
        v
    } else {
        match auto_step_move(v) {
            None => v,
            Some((from, to)) => auto_run(apply_move_spec(v, from, to), (fuel - 1) as nat),
        }
    }
}

/// The pre-move playfields that the same steps snapshot, in order.
pub open spec fn auto_run_saves(v: StateView, fuel: nat) -> Seq<StateView>
    decreases fuel,
{
    if fuel == 0 {
        Seq::empty()
    } else {
        match auto_step_move(v) {
            None => Seq::empty(),
            Some((from, to)) => seq![v] + auto_run_saves(
                apply_move_spec(v, from, to),
                (fuel - 1) as nat,
            ),
        }
    }
}

impl GameState {
    /// One auto-completion step; see `auto_step_move` for which move it
    /// makes.
    fn auto_step(&mut self) -> (r: bool)
        requires
            old(self).wf(),
            old(self).score + 15 <= i32::MAX,
            old(self).move_count < u32::MAX,
        ensures
            final(self).wf(),
            match auto_step_move(old(self)@) {
                Some((from, to)) => r && final(self)@ == apply_move_spec(old(self)@, from, to)
                    && history_saved(*old(self), *final(self)),
                None => !r && state_unchanged(*old(self), *final(self)),
            },
    {
        let mut col: usize = 0;
        while col < 7
            invariant
                col <= 7,
                *self == *old(self),
                self.wf(),
                first_tableau_foundation_target(self@, 0) == first_tableau_foundation_target(
                    self@,
                    col as int,
                ),
                self.score + 15 <= i32::MAX,
                self.move_count < u32::MAX,
            decreases 7 - col,
        {
            let n = self.tableau[col].len();
            if n > 0 {
                let card = self.tableau[col][n - 1];
                if card.face_up {
                    match self.find_foundation_for(card) {
                        Some(f) => {
                            let from = MoveLocation {
                                pile_type: PileType::Tableau,
                                pile_index: col,
                                card_index: n - 1,
                            };
                            let to = MoveLocation {
                                pile_type: PileType::Foundation,
                                pile_index: f,
                                card_index: self.foundations[f].len(),
                            };
                            proof {
                                crate::game::lemma_wf_pile_bounds(self@);
                                assert(card == self@.tableau[col as int].last());
                                lemma_foundation_target_valid(self@, card, f as int);
                                assert(from == tab_top_loc(self@, col as int));
                                assert(to == foundation_loc(self@, f as int));
                                assert(first_tableau_foundation_target(self@, col as int)
                                    == Some((col as int, f as int)));
                            }
                            self.apply_move(from, to);
                            return true;
                        },
                        None => {
                            proof {
                                assert(first_tableau_foundation_target(self@, col as int)
                                    == first_tableau_foundation_target(self@, col as int + 1));
                            }
                        },
                    }
                } else {
                    proof {
                        assert(first_tableau_foundation_target(self@, col as int)
                            == first_tableau_foundation_target(self@, col as int + 1));
                    }
                }
            } else {
                proof {
                    assert(first_tableau_foundation_target(self@, col as int)
                        == first_tableau_foundation_target(self@, col as int + 1));
                }
            }
            col = col + 1;
        }
        if self.waste.len() > 0 {
            let card = self.waste[self.waste.len() - 1];
            match self.find_foundation_for(card) {
                Some(f) => {
                    let from = MoveLocation {
                        pile_type: PileType::Waste,
                        pile_index: 0,
                        card_index: self.waste.len() - 1,
                    };
                    let to = MoveLocation {
                        pile_type: PileType::Foundation,
                        pile_index: f,
                        card_index: self.foundations[f].len(),
                    };
                    proof {
                        crate::game::lemma_wf_pile_bounds(self@);
                        lemma_foundation_target_valid(self@, card, f as int);
                        assert(from == waste_top_loc(self@));
                        assert(to == foundation_loc(self@, f as int));
                    }
                    self.apply_move(from, to);
                    return true;
                },
                None => {},
            }
        }
        false
    }
}

/// Repeated opportunistic foundation moves, capped at 100 per call so the
/// loop always terminates, with the same scoring and card-flip rules as a
/// manual move. Returns whether at least one move was made; callers
/// invoke this repeatedly until it returns false.
pub fn auto_complete(game: &mut GameState) -> (r: bool)
    requires
        old(game).wf(),
        old(game).score + 1500 <= i32::MAX,
        old(game).move_count + 100 <= u32::MAX,
    ensures
        final(game).wf(),
        final(game)@ == auto_run(old(game)@, 100),
        r == (auto_step_move(old(game)@) is Some),
        crate::game::saved_suffix(
            final(game).undo_stack@,
            crate::game::history_views(old(game).undo_stack@) + auto_run_saves(old(game)@, 100),
        ),
{
    let mut moves_made = false;
    let mut attempts: u32 = 0;
    let ghost total0 = crate::game::history_views(old(game).undo_stack@);
    let ghost mut saves: Seq<StateView> = Seq::empty();
    proof {
        assert(total0 + saves =~= total0);
        assert(crate::game::saved_suffix(game.undo_stack@, total0 + saves)) by {
            assert forall|i: int|
                0 <= i < old(game).undo_stack@.len() implies (#[trigger] game.undo_stack@[i])@
                == (total0 + saves)[i] by {
                assert(total0[i] == old(game).undo_stack@[i]@);
            }
        }
    }
    while attempts < 100
        invariant
            attempts <= 100,
            game.wf(),
            game@.score + 15 * (100 - attempts as int) <= i32::MAX,
            game@.move_count + (100 - attempts as int) <= u32::MAX,
            auto_run(old(game)@, 100) == auto_run(game@, (100 - attempts) as nat),
            auto_run_saves(old(game)@, 100) == saves + auto_run_saves(
                game@,
                (100 - attempts) as nat,
            ),
            total0 == crate::game::history_views(old(game).undo_stack@),
            crate::game::saved_suffix(game.undo_stack@, total0 + saves),
            moves_made == (attempts > 0),
            attempts > 0 ==> auto_step_move(old(game)@) is Some,
            attempts == 0 ==> game@ == old(game)@,
        ensures
            game.wf(),
            game@ == auto_run(old(game)@, 100),
            moves_made == (auto_step_move(old(game)@) is Some),
            crate::game::saved_suffix(
                game.undo_stack@,
                total0 + auto_run_saves(old(game)@, 100),
            ),
        decreases 100 - attempts,
    {
        let ghost pre = *game;
        let stepped = game.auto_step();
        if !stepped {
            proof {
                assert(auto_run(pre@, (100 - attempts) as nat) == pre@);
                assert(auto_run_saves(pre@, (100 - attempts) as nat) =~= Seq::<StateView>::empty());
                assert(saves + auto_run_saves(pre@, (100 - attempts) as nat) =~= saves);
                if attempts == 0 {
                    assert(auto_step_move(old(game)@) is None);
                }
            }
            break;
        }
        proof {
            assert(auto_run(pre@, (100 - attempts) as nat) == auto_run(
                game@,
                (100 - (attempts + 1)) as nat,
            ));
            assert(auto_run_saves(pre@, (100 - attempts) as nat) == seq![pre@] + auto_run_saves(
                game@,
                (100 - (attempts + 1)) as nat,
            ));
            crate::game::lemma_saved_suffix_step(pre, *game, total0 + saves);
            assert((total0 + saves) + seq![pre@] =~= total0 + (saves + seq![pre@]));
            saves = saves + seq![pre@];
            assert(saves + auto_run_saves(game@, (100 - (attempts + 1)) as nat) =~= auto_run_saves(
                old(game)@,
                100,
            ));
        }
        attempts = attempts + 1;
        moves_made = true;
    }
    proof {
        if attempts == 100 {
            assert(auto_run_saves(game@, 0) =~= Seq::<StateView>::empty());
            assert(saves + auto_run_saves(game@, 0) =~= saves);
        }
    }
    moves_made
}

} // verus!

verus! {

// ---------------------------------------------------------------------------
// Enumerating every legal move, in the canonical priority order.
// ---------------------------------------------------------------------------

/// The enumeration rank of a move: waste-to-tableau moves come first
/// (by destination column), then waste-to-foundation (by foundation),
/// then tableau sources by (column, run start), each trying the other
/// tableau columns before the foundations.
pub open spec fn enum_rank(from: MoveLocation, to: MoveLocation) -> (int, int, int, int) {
    match (from.pile_type, to.pile_type) {
        (PileType::Waste, PileType::Tableau) => (0int, to.pile_index as int, 0int, 0int),
        (PileType::Waste, PileType::Foundation) => (1int, to.pile_index as int, 0int, 0int),
        (PileType::Tableau, PileType::Tableau) => (
            2int,
            from.pile_index as int,
            from.card_index as int,
            to.pile_index as int,
        ),
        (PileType::Tableau, PileType::Foundation) => (
            2int,
            from.pile_index as int,
            from.card_index as int,
            7 + to.pile_index as int,
        ),
        _ => (3int, 0int, 0int, 0int),
    }
}

/// Strict lexicographic order on enumeration ranks.
pub open spec fn rank_lt(a: (int, int, int, int), b: (int, int, int, int)) -> bool {
    ||| a.0 < b.0
    ||| (a.0 == b.0 && a.1 < b.1)
    ||| (a.0 == b.0 && a.1 == b.1 && a.2 < b.2)
    ||| (a.0 == b.0 && a.1 == b.1 && a.2 == b.2 && a.3 < b.3)
}

/// Whether the move `(f1, t1)` is enumerated strictly before `(f2, t2)`.
pub open spec fn move_before(
    f1: MoveLocation,
    t1: MoveLocation,
    f2: MoveLocation,
    t2: MoveLocation,
) -> bool {
    rank_lt(enum_rank(f1, t1), enum_rank(f2, t2))
}

/// A candidate of the fixed enumeration: a legal move whose source is the
/// waste top or a face-up tableau card, addressed canonically (the
/// destination's card index names the pile's current length), and which
/// never moves a tableau run onto its own column.
pub open spec fn candidate_loc(v: StateView, from: MoveLocation, to: MoveLocation) -> bool {
    &&& valid_move_spec(v, from, to)
    &&& (from.pile_type == PileType::Waste || from.pile_type == PileType::Tableau)
    &&& (from.pile_type == PileType::Waste ==> from.pile_index == 0 && from.card_index as int
        == v.waste.len() - 1)
    &&& (to.pile_type == PileType::Tableau ==> to.card_index as int == v.tableau[to.pile_index as int].len()
        && !(from.pile_type == PileType::Tableau && to.pile_index == from.pile_index))
    &&& (to.pile_type == PileType::Foundation ==> to.card_index as int
        == v.foundations[to.pile_index as int].len())
}

/// The invariant of the enumeration: `ms` holds exactly the candidates
/// ranked before `pos`, in strictly increasing rank order, each carrying
/// its run and fresh bookkeeping.
pub open spec fn enumeration_upto(v: StateView, ms: Seq<Move>, pos: (int, int, int, int)) -> bool {
    &&& forall|i: int|
        0 <= i < ms.len() ==> candidate_loc(v, (#[trigger] ms[i]).from, ms[i].to)
    &&& forall|i: int|
        0 <= i < ms.len() ==> (#[trigger] ms[i]).cards@ == run_of(v, ms[i].from) && ms[i].score_change
            == 0 && ms[i].flipped_card is None
    &&& forall|i: int|
        0 <= i < ms.len() ==> rank_lt(enum_rank((#[trigger] ms[i]).from, ms[i].to), pos)
    &&& forall|from: MoveLocation, to: MoveLocation|
        #![trigger candidate_loc(v, from, to)]
        candidate_loc(v, from, to) && rank_lt(enum_rank(from, to), pos) ==> exists|i: int|
            0 <= i < ms.len() && (#[trigger] ms[i]).from == from && ms[i].to == to
    &&& forall|i: int, j: int|
        0 <= i < j < ms.len() ==> move_before(
            (#[trigger] ms[i]).from,
            ms[i].to,
            (#[trigger] ms[j]).from,
            ms[j].to,
        )
}

} // verus!

verus! {

/// A non-strict step of the enumeration order.
pub open spec fn rank_le(a: (int, int, int, int), b: (int, int, int, int)) -> bool {
    a == b || rank_lt(a, b)
}

/// Advance the enumeration window without finding a candidate: nothing
/// ranks between `pos0` and `pos1`.
proof fn lemma_enum_skip(
    v: StateView,
    ms: Seq<Move>,
    pos0: (int, int, int, int),
    pos1: (int, int, int, int),
)
    requires
        enumeration_upto(v, ms, pos0),
        rank_le(pos0, pos1),
        forall|a: MoveLocation, b: MoveLocation|
            #![trigger candidate_loc(v, a, b)]
            candidate_loc(v, a, b) && rank_lt(enum_rank(a, b), pos1) ==> rank_lt(
                enum_rank(a, b),
                pos0,
            ),
    ensures
        enumeration_upto(v, ms, pos1),
{
}

/// Advance the enumeration window over exactly one candidate, appending
/// it to the list.
proof fn lemma_enum_extend_push(
    v: StateView,
    ms: Seq<Move>,
    pos0: (int, int, int, int),
    pos1: (int, int, int, int),
    m: Move,
)
    requires
        enumeration_upto(v, ms, pos0),
        candidate_loc(v, m.from, m.to),
        m.cards@ == run_of(v, m.from),
        m.score_change == 0,
        m.flipped_card is None,
        !rank_lt(enum_rank(m.from, m.to), pos0),
        rank_lt(enum_rank(m.from, m.to), pos1),
        rank_le(pos0, pos1),
        forall|a: MoveLocation, b: MoveLocation|
            #![trigger candidate_loc(v, a, b)]
            candidate_loc(v, a, b) && !rank_lt(enum_rank(a, b), pos0) && rank_lt(
                enum_rank(a, b),
                pos1,
            ) ==> a == m.from && b == m.to,
    ensures
        enumeration_upto(v, ms.push(m), pos1),
{
    let ms1 = ms.push(m);
    assert forall|i: int|
        0 <= i < ms1.len() implies candidate_loc(v, (#[trigger] ms1[i]).from, ms1[i].to) by {
        if i < ms.len() {
            assert(ms1[i] == ms[i]);
        } else {
            assert(ms1[i] == m);
        }
    }
    assert forall|i: int|
        0 <= i < ms1.len() implies (#[trigger] ms1[i]).cards@ == run_of(v, ms1[i].from)
        && ms1[i].score_change == 0 && ms1[i].flipped_card is None by {
        if i < ms.len() {
            assert(ms1[i] == ms[i]);
        } else {
            assert(ms1[i] == m);
        }
    }
    assert forall|i: int|
        0 <= i < ms1.len() implies rank_lt(enum_rank((#[trigger] ms1[i]).from, ms1[i].to), pos1) by {
        if i < ms.len() {
            assert(ms1[i] == ms[i]);
        } else {
            assert(ms1[i] == m);
        }
    }
    assert forall|from: MoveLocation, to: MoveLocation|
        candidate_loc(v, from, to) && rank_lt(enum_rank(from, to), pos1) implies exists|i: int|
        0 <= i < ms1.len() && (#[trigger] ms1[i]).from == from && ms1[i].to == to by {
        if rank_lt(enum_rank(from, to), pos0) {
            let i = choose|i: int|
                0 <= i < ms.len() && (#[trigger] ms[i]).from == from && ms[i].to == to;
            assert(ms1[i] == ms[i]);
            assert(ms1[i].from == from && ms1[i].to == to);
        } else {
            assert(from == m.from && to == m.to);
            assert(ms1[ms.len() as int] == m);
        }
    }
    assert forall|i: int, j: int|
        0 <= i < j < ms1.len() implies move_before(
        (#[trigger] ms1[i]).from,
        ms1[i].to,
        (#[trigger] ms1[j]).from,
        ms1[j].to,
    ) by {
        if j < ms.len() {
            assert(ms1[i] == ms[i] && ms1[j] == ms[j]);
        } else {
            assert(ms1[i] == ms[i] && ms1[j] == m);
            assert(rank_lt(enum_rank(ms[i].from, ms[i].to), pos0));
        }
    }
}

} // verus!

verus! {

/// Enumerate every legal move in the canonical priority order: each legal
/// waste-to-tableau move (columns left to right), each legal
/// waste-to-foundation move, then for each tableau column and each
/// face-up run start, every legal move to another tableau column and —
/// for single-card runs — to a foundation. This ordering is the move
/// priority used for hinting and solving.
pub fn find_valid_moves(game: &GameState) -> (moves: Vec<Move>)
    requires
        game.wf(),
    ensures
        enumeration_upto(game@, moves@, (3int, 0int, 0int, 0int)),
        forall|from: MoveLocation, to: MoveLocation|
            #![trigger candidate_loc(game@, from, to)]
            candidate_loc(game@, from, to) ==> exists|i: int|
                0 <= i < moves@.len() && (#[trigger] moves@[i]).from == from && moves@[i].to == to,
{
    let mut moves: Vec<Move> = Vec::new();
    proof {
        assert forall|a: MoveLocation, b: MoveLocation|
            candidate_loc(game@, a, b) implies !rank_lt(
            enum_rank(a, b),
            (0int, 0int, 0int, 0int),
        ) by {}
        assert(enumeration_upto(game@, moves@, (0int, 0int, 0int, 0int)));
    }

    // waste source: each tableau column, then each foundation
    if game.waste.len() > 0 {
        let wlen = game.waste.len();
        let wfrom = MoveLocation { pile_type: PileType::Waste, pile_index: 0, card_index: wlen - 1 };
        let top = game.waste[wlen - 1];
        let mut col: usize = 0;
        while col < 7
            invariant
                game.wf(),
                col <= 7,
                wlen == game@.waste.len(),
                wlen > 0,
                wfrom == (MoveLocation {
                    pile_type: PileType::Waste,
                    pile_index: 0,
                    card_index: (wlen - 1) as usize,
                }),
                top == game@.waste.last(),
                enumeration_upto(game@, moves@, (0int, col as int, 0int, 0int)),
            decreases 7 - col,
        {
            let to = MoveLocation {
                pile_type: PileType::Tableau,
                pile_index: col,
                card_index: game.tableau[col].len(),
            };
            let mut cards: Vec<Card> = Vec::new();
            cards.push(top);
            let mv = Move::new(wfrom, to, cards);
            let ghost gmv = mv;
            let ghost p0 = (0int, col as int, 0int, 0int);
            let ghost p1 = (0int, col as int + 1, 0int, 0int);
            if mv.is_valid(game) {
                proof {
                    assert(gmv.cards@ =~= run_of(game@, wfrom));
                    assert(candidate_loc(game@, wfrom, to));
                    assert forall|a: MoveLocation, b: MoveLocation|
                        candidate_loc(game@, a, b) && !rank_lt(enum_rank(a, b), p0) && rank_lt(
                        enum_rank(a, b),
                        p1,
                    ) implies a == wfrom && b == to by {}
                    lemma_enum_extend_push(game@, moves@, p0, p1, gmv);
                }
                moves.push(mv);
            } else {
                proof {
                    assert forall|a: MoveLocation, b: MoveLocation|
                        candidate_loc(game@, a, b) && rank_lt(enum_rank(a, b), p1) implies rank_lt(
                        enum_rank(a, b),
                        p0,
                    ) by {}
                    lemma_enum_skip(game@, moves@, p0, p1);
                }
            }
            col = col + 1;
        }
        proof {
            assert forall|a: MoveLocation, b: MoveLocation|
                candidate_loc(game@, a, b) && rank_lt(
                enum_rank(a, b),
                (1int, 0int, 0int, 0int),
            ) implies rank_lt(enum_rank(a, b), (0int, 7int, 0int, 0int)) by {}
            lemma_enum_skip(
                game@,
                moves@,
                (0int, 7int, 0int, 0int),
                (1int, 0int, 0int, 0int),
            );
        }
        let mut f: usize = 0;
        while f < 4
            invariant
                game.wf(),
                f <= 4,
                wlen == game@.waste.len(),
                wlen > 0,
                wfrom == (MoveLocation {
                    pile_type: PileType::Waste,
                    pile_index: 0,
                    card_index: (wlen - 1) as usize,
                }),
                top == game@.waste.last(),
                enumeration_upto(game@, moves@, (1int, f as int, 0int, 0int)),
            decreases 4 - f,
        {
            let to = MoveLocation {
                pile_type: PileType::Foundation,
                pile_index: f,
                card_index: game.foundations[f].len(),
            };
            let mut cards: Vec<Card> = Vec::new();
            cards.push(top);
            let mv = Move::new(wfrom, to, cards);
            let ghost gmv = mv;
            let ghost p0 = (1int, f as int, 0int, 0int);
            let ghost p1 = (1int, f as int + 1, 0int, 0int);
            if mv.is_valid(game) {
                proof {
                    assert(gmv.cards@ =~= run_of(game@, wfrom));
                    assert(candidate_loc(game@, wfrom, to));
                    assert forall|a: MoveLocation, b: MoveLocation|
                        candidate_loc(game@, a, b) && !rank_lt(enum_rank(a, b), p0) && rank_lt(
                        enum_rank(a, b),
                        p1,
                    ) implies a == wfrom && b == to by {}
                    lemma_enum_extend_push(game@, moves@, p0, p1, gmv);
                }
                moves.push(mv);
            } else {
                proof {
                    assert forall|a: MoveLocation, b: MoveLocation|
                        candidate_loc(game@, a, b) && rank_lt(enum_rank(a, b), p1) implies rank_lt(
                        enum_rank(a, b),
                        p0,
                    ) by {}
                    lemma_enum_skip(game@, moves@, p0, p1);
                }
            }
            f = f + 1;
        }
        proof {
            assert forall|a: MoveLocation, b: MoveLocation|
                candidate_loc(game@, a, b) && rank_lt(
                enum_rank(a, b),
                (2int, 0int, 0int, 0int),
            ) implies rank_lt(enum_rank(a, b), (1int, 4int, 0int, 0int)) by {}
            lemma_enum_skip(
                game@,
                moves@,
                (1int, 4int, 0int, 0int),
                (2int, 0int, 0int, 0int),
            );
        }
    } else {
        proof {
            assert forall|a: MoveLocation, b: MoveLocation|
                candidate_loc(game@, a, b) && rank_lt(
                enum_rank(a, b),
                (2int, 0int, 0int, 0int),
            ) implies rank_lt(enum_rank(a, b), (0int, 0int, 0int, 0int)) by {}
            lemma_enum_skip(
                game@,
                moves@,
                (0int, 0int, 0int, 0int),
                (2int, 0int, 0int, 0int),
            );
        }
    }

    // tableau sources, by column then by run start
    let mut from_col: usize = 0;
    while from_col < 7
        invariant
            game.wf(),
            from_col <= 7,
            enumeration_upto(game@, moves@, (2int, from_col as int, 0int, 0int)),
        decreases 7 - from_col,
    {
        let n = game.tableau[from_col].len();
        let mut from_idx: usize = 0;
        while from_idx < n
            invariant
                game.wf(),
                from_col < 7,
                n == game@.tableau[from_col as int].len(),
                from_idx <= n,
                enumeration_upto(
                    game@,
                    moves@,
                    (2int, from_col as int, from_idx as int, 0int),
                ),
            decreases n - from_idx,
        {
            if !game.tableau[from_col][from_idx].face_up {
                proof {
                    let p0 = (2int, from_col as int, from_idx as int, 0int);
                    let p1 = (2int, from_col as int, from_idx as int + 1, 0int);
                    assert forall|a: MoveLocation, b: MoveLocation|
                        candidate_loc(game@, a, b) && rank_lt(enum_rank(a, b), p1) implies rank_lt(
                        enum_rank(a, b),
                        p0,
                    ) by {
                        if !rank_lt(enum_rank(a, b), p0) {
                            assert(a.pile_type == PileType::Tableau);
                            assert(a.pile_index == from_col && a.card_index == from_idx);
                            assert(game@.tableau[a.pile_index as int][a.card_index as int].face_up);
                        }
                    }
                    lemma_enum_skip(game@, moves@, p0, p1);
                }
                from_idx = from_idx + 1;
                continue;
            }
            let from = MoveLocation {
                pile_type: PileType::Tableau,
                pile_index: from_col,
                card_index: from_idx,
            };
            let mut cards: Vec<Card> = Vec::new();
            let mut j = from_idx;
            while j < n
                invariant
                    game.wf(),
                    from_col < 7,
                    n == game@.tableau[from_col as int].len(),
                    from_idx <= j <= n,
                    cards@ == game@.tableau[from_col as int].subrange(from_idx as int, j as int),
                decreases n - j,
            {
                cards.push(game.tableau[from_col][j]);
                proof {
                    assert(cards@ =~= game@.tableau[from_col as int].subrange(
                        from_idx as int,
                        j as int + 1,
                    ));
                }
                j = j + 1;
            }
            proof {
                assert(cards@ =~= game@.tableau[from_col as int].skip(from_idx as int));
            }
            let mut to_col: usize = 0;
            while to_col < 7
                invariant
                    game.wf(),
                    from_col < 7,
                    to_col <= 7,
                    n == game@.tableau[from_col as int].len(),
                    from_idx < n,
                    from == (MoveLocation {
                        pile_type: PileType::Tableau,
                        pile_index: from_col,
                        card_index: from_idx,
                    }),
                    cards@ == game@.tableau[from_col as int].skip(from_idx as int),
                    enumeration_upto(
                        game@,
                        moves@,
                        (2int, from_col as int, from_idx as int, to_col as int),
                    ),
                decreases 7 - to_col,
            {
                let ghost p0 = (2int, from_col as int, from_idx as int, to_col as int);
                let ghost p1 = (2int, from_col as int, from_idx as int, to_col as int + 1);
                if to_col == from_col {
                    proof {
                        assert forall|a: MoveLocation, b: MoveLocation|
                            candidate_loc(game@, a, b) && rank_lt(enum_rank(a, b), p1) implies
                        rank_lt(enum_rank(a, b), p0) by {}
                        lemma_enum_skip(game@, moves@, p0, p1);
                    }
                    to_col = to_col + 1;
                    continue;
                }
                let to = MoveLocation {
                    pile_type: PileType::Tableau,
                    pile_index: to_col,
                    card_index: game.tableau[to_col].len(),
                };
                let mv = Move::new(from, to, crate::game::clone_pile(&cards));
                let ghost gmv = mv;
                if mv.is_valid(game) {
                    proof {
                        assert(candidate_loc(game@, from, to));
                        assert forall|a: MoveLocation, b: MoveLocation|
                            candidate_loc(game@, a, b) && !rank_lt(enum_rank(a, b), p0) && rank_lt(
                            enum_rank(a, b),
                            p1,
                        ) implies a == from && b == to by {}
                        lemma_enum_extend_push(game@, moves@, p0, p1, gmv);
                    }
                    moves.push(mv);
                } else {
                    proof {
                        assert forall|a: MoveLocation, b: MoveLocation|
                            candidate_loc(game@, a, b) && rank_lt(enum_rank(a, b), p1) implies
                        rank_lt(enum_rank(a, b), p0) by {}
                        lemma_enum_skip(game@, moves@, p0, p1);
                    }
                }
                to_col = to_col + 1;
            }
            if from_idx == n - 1 {
                let mut f: usize = 0;
                while f < 4
                    invariant
                        game.wf(),
                        from_col < 7,
                        f <= 4,
                        n == game@.tableau[from_col as int].len(),
                        from_idx < n,
                        from_idx == n - 1,
                        from == (MoveLocation {
                            pile_type: PileType::Tableau,
                            pile_index: from_col,
                            card_index: from_idx,
                        }),
                        cards@ == game@.tableau[from_col as int].skip(from_idx as int),
                        enumeration_upto(
                            game@,
                            moves@,
                            (2int, from_col as int, from_idx as int, 7 + f as int),
                        ),
                    decreases 4 - f,
                {
                    let ghost p0 = (2int, from_col as int, from_idx as int, 7 + f as int);
                    let ghost p1 = (2int, from_col as int, from_idx as int, 7 + f as int + 1);
                    let to = MoveLocation {
                        pile_type: PileType::Foundation,
                        pile_index: f,
                        card_index: game.foundations[f].len(),
                    };
                    let mv = Move::new(from, to, crate::game::clone_pile(&cards));
                    let ghost gmv = mv;
                    if mv.is_valid(game) {
                        proof {
                            assert(candidate_loc(game@, from, to));
                            assert forall|a: MoveLocation, b: MoveLocation|
                                candidate_loc(game@, a, b) && !rank_lt(enum_rank(a, b), p0)
                                && rank_lt(enum_rank(a, b), p1) implies a == from && b == to by {}
                            lemma_enum_extend_push(game@, moves@, p0, p1, gmv);
                        }
                        moves.push(mv);
                    } else {
                        proof {
                            assert forall|a: MoveLocation, b: MoveLocation|
                                candidate_loc(game@, a, b) && rank_lt(enum_rank(a, b), p1) implies
                            rank_lt(enum_rank(a, b), p0) by {}
                            lemma_enum_skip(game@, moves@, p0, p1);
                        }
                    }
                    f = f + 1;
                }
                proof {
                    let p0 = (2int, from_col as int, from_idx as int, 11int);
                    let p1 = (2int, from_col as int, from_idx as int + 1, 0int);
                    assert forall|a: MoveLocation, b: MoveLocation|
                        candidate_loc(game@, a, b) && rank_lt(enum_rank(a, b), p1) implies rank_lt(
                        enum_rank(a, b),
                        p0,
                    ) by {}
                    lemma_enum_skip(game@, moves@, p0, p1);
                }
            } else {
                proof {
                    let p0 = (2int, from_col as int, from_idx as int, 7int);
                    let p1 = (2int, from_col as int, from_idx as int + 1, 0int);
                    assert forall|a: MoveLocation, b: MoveLocation|
                        candidate_loc(game@, a, b) && rank_lt(enum_rank(a, b), p1) implies rank_lt(
                        enum_rank(a, b),
                        p0,
                    ) by {
                        if !rank_lt(enum_rank(a, b), p0) {
                            assert(a.pile_type == PileType::Tableau);
                            if b.pile_type == PileType::Foundation && a.pile_index == from_col
                                && a.card_index == from_idx {
                                assert(run_of(game@, a).len() == 1);
                            }
                        }
                    }
                    lemma_enum_skip(game@, moves@, p0, p1);
                }
            }
            from_idx = from_idx + 1;
        }
        proof {
            let p0 = (2int, from_col as int, n as int, 0int);
            let p1 = (2int, from_col as int + 1, 0int, 0int);
            assert forall|a: MoveLocation, b: MoveLocation|
                candidate_loc(game@, a, b) && rank_lt(enum_rank(a, b), p1) implies rank_lt(
                enum_rank(a, b),
                p0,
            ) by {}
            lemma_enum_skip(game@, moves@, p0, p1);
        }
        from_col = from_col + 1;
    }
    proof {
        assert forall|a: MoveLocation, b: MoveLocation|
            candidate_loc(game@, a, b) implies rank_lt(
            enum_rank(a, b),
            (3int, 0int, 0int, 0int),
        ) by {}
        lemma_enum_skip(
            game@,
            moves@,
            (2int, 7int, 0int, 0int),
            (3int, 0int, 0int, 0int),
        );
    }
    moves
}

} // verus!

verus! {

// ---------------------------------------------------------------------------
// Picking the best move.
// ---------------------------------------------------------------------------

/// A candidate whose destination is a foundation.
pub open spec fn cand_foundation(v: StateView, a: MoveLocation, b: MoveLocation) -> bool {
    candidate_loc(v, a, b) && b.pile_type == PileType::Foundation
}

/// A candidate whose removal would uncover a face-down tableau card.
pub open spec fn cand_reveal(v: StateView, a: MoveLocation, b: MoveLocation) -> bool {
    &&& candidate_loc(v, a, b)
    &&& a.pile_type == PileType::Tableau
    &&& a.card_index > 0
    &&& !v.tableau[a.pile_index as int][a.card_index as int - 1].face_up
}

/// A tableau-to-tableau candidate.
pub open spec fn cand_tt(v: StateView, a: MoveLocation, b: MoveLocation) -> bool {
    candidate_loc(v, a, b) && a.pile_type == PileType::Tableau && b.pile_type == PileType::Tableau
}

/// A candidate whose source is the waste.
pub open spec fn cand_waste(v: StateView, a: MoveLocation, b: MoveLocation) -> bool {
    candidate_loc(v, a, b) && a.pile_type == PileType::Waste
}

/// The move `findBestMove` returns: the enumeration-first candidate of the
/// highest nonempty priority class — foundation destinations, then moves
/// that uncover a card, then tableau-to-tableau, then waste moves.
pub open spec fn best_move_spec(v: StateView, a: MoveLocation, b: MoveLocation) -> bool {
    if exists|x: MoveLocation, y: MoveLocation| cand_foundation(v, x, y) {
        cand_foundation(v, a, b) && forall|x: MoveLocation, y: MoveLocation|
            cand_foundation(v, x, y) ==> !move_before(x, y, a, b)
    } else if exists|x: MoveLocation, y: MoveLocation| cand_reveal(v, x, y) {
        cand_reveal(v, a, b) && forall|x: MoveLocation, y: MoveLocation|
            cand_reveal(v, x, y) ==> !move_before(x, y, a, b)
    } else if exists|x: MoveLocation, y: MoveLocation| cand_tt(v, x, y) {
        cand_tt(v, a, b) && forall|x: MoveLocation, y: MoveLocation|
            cand_tt(v, x, y) ==> !move_before(x, y, a, b)
    } else {
        cand_waste(v, a, b) && forall|x: MoveLocation, y: MoveLocation|
            cand_waste(v, x, y) ==> !move_before(x, y, a, b)
    }
}

/// From all legal moves, pick by priority: the first foundation move,
/// else the first move uncovering a face-down card, else the first
/// tableau-to-tableau move, else the first waste move; `None` when no
/// legal move exists.
pub fn find_best_move(game: &GameState) -> (r: Option<Move>)
    requires
        game.wf(),
    ensures
        r is None ==> forall|a: MoveLocation, b: MoveLocation|
            !#[trigger] candidate_loc(game@, a, b),
        r matches Some(m) ==> best_move_spec(game@, m.from, m.to) && m.cards@ == run_of(
            game@,
            m.from,
        ) && m.score_change == 0 && m.flipped_card is None,
{
    let ghost v = game@;
    let moves = find_valid_moves(game);

    // first move to a foundation
    let mut i: usize = 0;
    while i < moves.len()
        invariant
            game.wf(),
            v == game@,
            i <= moves@.len(),
            enumeration_upto(v, moves@, (3int, 0int, 0int, 0int)),
            forall|a: MoveLocation, b: MoveLocation|
                #![trigger candidate_loc(v, a, b)]
                candidate_loc(v, a, b) ==> exists|k: int|
                    0 <= k < moves@.len() && (#[trigger] moves@[k]).from == a && moves@[k].to == b,
            forall|j: int| 0 <= j < i ==> !cand_foundation(v, (#[trigger] moves@[j]).from, moves@[j].to),
        decreases moves@.len() - i,
    {
        if moves[i].to.pile_type == PileType::Foundation {
            let m = moves[i].clone();
            proof {
                lemma_best_in_class_foundation(v, moves@, i as int);
            }
            return Some(m);
        }
        i = i + 1;
    }

    // then a move that uncovers a face-down card
    let mut i: usize = 0;
    while i < moves.len()
        invariant
            game.wf(),
            v == game@,
            i <= moves@.len(),
            enumeration_upto(v, moves@, (3int, 0int, 0int, 0int)),
            forall|a: MoveLocation, b: MoveLocation|
                #![trigger candidate_loc(v, a, b)]
                candidate_loc(v, a, b) ==> exists|k: int|
                    0 <= k < moves@.len() && (#[trigger] moves@[k]).from == a && moves@[k].to == b,
            forall|a: MoveLocation, b: MoveLocation| !#[trigger] cand_foundation(v, a, b),
            forall|j: int| 0 <= j < i ==> !cand_reveal(v, (#[trigger] moves@[j]).from, moves@[j].to),
        decreases moves@.len() - i,
    {
        let from = moves[i].from;
        if from.pile_type == PileType::Tableau && from.card_index > 0 && !game.tableau[from.pile_index][from.card_index
            - 1].face_up {
            let m = moves[i].clone();
            proof {
                assert(cand_reveal(v, moves@[i as int].from, moves@[i as int].to));
                lemma_best_in_class_reveal(v, moves@, i as int);
            }
            return Some(m);
        }
        proof {
            let mi = moves@[i as int];
            if cand_reveal(v, mi.from, mi.to) {
                assert(!game@.tableau[mi.from.pile_index as int][mi.from.card_index as int
                    - 1].face_up);
            }
        }
        i = i + 1;
    }

    // then any tableau-to-tableau move
    let mut i: usize = 0;
    while i < moves.len()
        invariant
            game.wf(),
            v == game@,
            i <= moves@.len(),
            enumeration_upto(v, moves@, (3int, 0int, 0int, 0int)),
            forall|a: MoveLocation, b: MoveLocation|
                #![trigger candidate_loc(v, a, b)]
                candidate_loc(v, a, b) ==> exists|k: int|
                    0 <= k < moves@.len() && (#[trigger] moves@[k]).from == a && moves@[k].to == b,
            forall|a: MoveLocation, b: MoveLocation| !#[trigger] cand_foundation(v, a, b),
            forall|a: MoveLocation, b: MoveLocation| !#[trigger] cand_reveal(v, a, b),
            forall|j: int| 0 <= j < i ==> !cand_tt(v, (#[trigger] moves@[j]).from, moves@[j].to),
        decreases moves@.len() - i,
    {
        if moves[i].from.pile_type == PileType::Tableau && moves[i].to.pile_type
            == PileType::Tableau {
            let m = moves[i].clone();
            proof {
                lemma_best_in_class_tt(v, moves@, i as int);
            }
            return Some(m);
        }
        i = i + 1;
    }

    // finally a waste move
    let mut i: usize = 0;
    while i < moves.len()
        invariant
            game.wf(),
            v == game@,
            i <= moves@.len(),
            enumeration_upto(v, moves@, (3int, 0int, 0int, 0int)),
            forall|a: MoveLocation, b: MoveLocation|
                #![trigger candidate_loc(v, a, b)]
                candidate_loc(v, a, b) ==> exists|k: int|
                    0 <= k < moves@.len() && (#[trigger] moves@[k]).from == a && moves@[k].to == b,
            forall|a: MoveLocation, b: MoveLocation| !#[trigger] cand_foundation(v, a, b),
            forall|a: MoveLocation, b: MoveLocation| !#[trigger] cand_reveal(v, a, b),
            forall|a: MoveLocation, b: MoveLocation| !#[trigger] cand_tt(v, a, b),
            forall|j: int| 0 <= j < i ==> !cand_waste(v, (#[trigger] moves@[j]).from, moves@[j].to),
        decreases moves@.len() - i,
    {
        if moves[i].from.pile_type == PileType::Waste {
            let m = moves[i].clone();
            proof {
                lemma_best_in_class_waste(v, moves@, i as int);
            }
            return Some(m);
        }
        i = i + 1;
    }
    proof {
        assert forall|a: MoveLocation, b: MoveLocation|
            !#[trigger] candidate_loc(v, a, b) by {
            if candidate_loc(v, a, b) {
                if b.pile_type == PileType::Foundation {
                    assert(cand_foundation(v, a, b));
                } else if a.pile_type == PileType::Tableau {
                    assert(cand_tt(v, a, b));
                } else {
                    assert(cand_waste(v, a, b));
                }
            }
        }
    }
    None
}

/// The scanned prefix held no foundation candidate, so the one at `i` is
/// the enumeration-first of its class.
proof fn lemma_best_in_class_foundation(v: StateView, ms: Seq<Move>, i: int)
    requires
        enumeration_upto(v, ms, (3int, 0int, 0int, 0int)),
        forall|a: MoveLocation, b: MoveLocation|
            #![trigger candidate_loc(v, a, b)]
            candidate_loc(v, a, b) ==> exists|k: int|
                0 <= k < ms.len() && (#[trigger] ms[k]).from == a && ms[k].to == b,
        0 <= i < ms.len(),
        cand_foundation(v, ms[i].from, ms[i].to),
        forall|j: int| 0 <= j < i ==> !cand_foundation(v, (#[trigger] ms[j]).from, ms[j].to),
    ensures
        best_move_spec(v, ms[i].from, ms[i].to),
{
    assert forall|x: MoveLocation, y: MoveLocation|
        cand_foundation(v, x, y) implies !move_before(x, y, ms[i].from, ms[i].to) by {
        let k = choose|k: int| 0 <= k < ms.len() && (#[trigger] ms[k]).from == x && ms[k].to == y;
        if k < i {
            assert(!cand_foundation(v, ms[k].from, ms[k].to));
        } else if k > i {
            assert(move_before(ms[i].from, ms[i].to, ms[k].from, ms[k].to));
        }
    }
}

/// The scanned prefix held no reveal candidate, so the one at `i` is the
/// enumeration-first of its class.
proof fn lemma_best_in_class_reveal(v: StateView, ms: Seq<Move>, i: int)
    requires
        enumeration_upto(v, ms, (3int, 0int, 0int, 0int)),
        forall|a: MoveLocation, b: MoveLocation|
            #![trigger candidate_loc(v, a, b)]
            candidate_loc(v, a, b) ==> exists|k: int|
                0 <= k < ms.len() && (#[trigger] ms[k]).from == a && ms[k].to == b,
        forall|a: MoveLocation, b: MoveLocation| !#[trigger] cand_foundation(v, a, b),
        0 <= i < ms.len(),
        cand_reveal(v, ms[i].from, ms[i].to),
        forall|j: int| 0 <= j < i ==> !cand_reveal(v, (#[trigger] ms[j]).from, ms[j].to),
    ensures
        best_move_spec(v, ms[i].from, ms[i].to),
{
    assert forall|x: MoveLocation, y: MoveLocation|
        cand_reveal(v, x, y) implies !move_before(x, y, ms[i].from, ms[i].to) by {
        let k = choose|k: int| 0 <= k < ms.len() && (#[trigger] ms[k]).from == x && ms[k].to == y;
        if k < i {
            assert(!cand_reveal(v, ms[k].from, ms[k].to));
        } else if k > i {
            assert(move_before(ms[i].from, ms[i].to, ms[k].from, ms[k].to));
        }
    }
}

/// The scanned prefix held no tableau-to-tableau candidate, so the one at
/// `i` is the enumeration-first of its class.
proof fn lemma_best_in_class_tt(v: StateView, ms: Seq<Move>, i: int)
    requires
        enumeration_upto(v, ms, (3int, 0int, 0int, 0int)),
        forall|a: MoveLocation, b: MoveLocation|
            #![trigger candidate_loc(v, a, b)]
            candidate_loc(v, a, b) ==> exists|k: int|
                0 <= k < ms.len() && (#[trigger] ms[k]).from == a && ms[k].to == b,
        forall|a: MoveLocation, b: MoveLocation| !#[trigger] cand_foundation(v, a, b),
        forall|a: MoveLocation, b: MoveLocation| !#[trigger] cand_reveal(v, a, b),
        0 <= i < ms.len(),
        cand_tt(v, ms[i].from, ms[i].to),
        forall|j: int| 0 <= j < i ==> !cand_tt(v, (#[trigger] ms[j]).from, ms[j].to),
    ensures
        best_move_spec(v, ms[i].from, ms[i].to),
{
    assert forall|x: MoveLocation, y: MoveLocation|
        cand_tt(v, x, y) implies !move_before(x, y, ms[i].from, ms[i].to) by {
        let k = choose|k: int| 0 <= k < ms.len() && (#[trigger] ms[k]).from == x && ms[k].to == y;
        if k < i {
            assert(!cand_tt(v, ms[k].from, ms[k].to));
        } else if k > i {
            assert(move_before(ms[i].from, ms[i].to, ms[k].from, ms[k].to));
        }
    }
}

/// The scanned prefix held no waste candidate, so the one at `i` is the
/// enumeration-first of its class.
proof fn lemma_best_in_class_waste(v: StateView, ms: Seq<Move>, i: int)
    requires
        enumeration_upto(v, ms, (3int, 0int, 0int, 0int)),
        forall|a: MoveLocation, b: MoveLocation|
            #![trigger candidate_loc(v, a, b)]
            candidate_loc(v, a, b) ==> exists|k: int|
                0 <= k < ms.len() && (#[trigger] ms[k]).from == a && ms[k].to == b,
        forall|a: MoveLocation, b: MoveLocation| !#[trigger] cand_foundation(v, a, b),
        forall|a: MoveLocation, b: MoveLocation| !#[trigger] cand_reveal(v, a, b),
        forall|a: MoveLocation, b: MoveLocation| !#[trigger] cand_tt(v, a, b),
        0 <= i < ms.len(),
        cand_waste(v, ms[i].from, ms[i].to),
        forall|j: int| 0 <= j < i ==> !cand_waste(v, (#[trigger] ms[j]).from, ms[j].to),
    ensures
        best_move_spec(v, ms[i].from, ms[i].to),
{
    assert forall|x: MoveLocation, y: MoveLocation|
        cand_waste(v, x, y) implies !move_before(x, y, ms[i].from, ms[i].to) by {
        let k = choose|k: int| 0 <= k < ms.len() && (#[trigger] ms[k]).from == x && ms[k].to == y;
        if k < i {
            assert(!cand_waste(v, ms[k].from, ms[k].to));
        } else if k > i {
            assert(move_before(ms[i].from, ms[i].to, ms[k].from, ms[k].to));
        }
    }
}

} // verus!
