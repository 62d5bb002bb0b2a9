//! The game state: the twelve piles, score, counters, selection, and the
//! bounded undo history, together with the invariants that every engine
//! operation preserves.

use vstd::prelude::*;
use vstd::multiset::Multiset;
use crate::card::{
    Card, Rank, card_id, create_standard_deck, full_deck_ids, lemma_face_down_ids,
    lemma_multiset_face_down, lemma_pile_ids_append, lemma_pile_ids_same, lemma_piles_ids_snoc,
    pile_ids, piles_ids, shuffle_cards, standard_deck,
};

verus! {

/// The four kinds of pile a card can sit in.
#[derive(Clone, Copy, PartialEq, Eq, Structural, Debug)]
pub enum PileType {
    Tableau,
    Stock,
    Waste,
    Foundation,
}

/// The mathematical view of the playfield: every pile as a sequence of
/// cards, and the counters as unbounded integers. The undo history is not
/// part of the view; it is bookkeeping *about* prior views.
#[verifier::ext_equal]
pub struct StateView {
    pub tableau: Seq<Seq<Card>>,
    pub stock: Seq<Card>,
    pub waste: Seq<Card>,
    pub foundations: Seq<Seq<Card>>,
    pub selected: Option<(PileType, usize, usize)>,
    pub score: int,
    pub move_count: int,
    pub draw_count: int,
}

/// The live state of one game of Klondike.
pub struct GameState {
    /// The seven tableau columns.
    pub tableau: Vec<Vec<Card>>,
    /// The face-down draw pile.
    pub stock: Vec<Card>,
    /// The face-up cards drawn from the stock.
    pub waste: Vec<Card>,
    /// The four foundations, each built Ace to King in one suit.
    pub foundations: Vec<Vec<Card>>,
    /// The current selection: pile kind, pile index, and the index of the
    /// first card of the candidate moving run.
    pub selected_card: Option<(PileType, usize, usize)>,
    /// How many rule-mutating operations have been applied.
    pub move_count: u32,
    /// The cumulative score; never negative.
    pub score: i32,
    /// Snapshots of prior playfields, oldest first, capacity 100.
    pub undo_stack: Vec<GameState>,
    /// How many cards a draw takes from the stock: 1 or 3.
    pub draw_count: usize,
}

impl View for GameState {
    type V = StateView;

    open spec fn view(&self) -> StateView {
        StateView {
            tableau: self.tableau@.map_values(|p: Vec<Card>| p@),
            stock: self.stock@,
            waste: self.waste@,
            foundations: self.foundations@.map_values(|p: Vec<Card>| p@),
            selected: self.selected_card,
            score: self.score as int,
            move_count: self.move_count as int,
            draw_count: self.draw_count as int,
        }
    }
}

// ---------------------------------------------------------------------------
// Pile invariants.
// ---------------------------------------------------------------------------

/// Face-up cards form a suffix: no face-down card ever sits above a face-up
/// one.
pub open spec fn face_up_suffix(p: Seq<Card>) -> bool {
    forall|i: int, j: int| #![trigger p[i], p[j]]
        0 <= i <= j < p.len() && p[i].face_up ==> p[j].face_up
}

/// A well-formed tableau column: face-down prefix, face-up suffix, and a
/// face-up top card whenever the column is not empty.
pub open spec fn tableau_ok(p: Seq<Card>) -> bool {
    &&& face_up_suffix(p)
    &&& p.len() > 0 ==> p.last().face_up
}

/// A well-formed foundation: a strictly increasing same-suit run starting
/// at Ace, all face up.
pub open spec fn foundation_ok(p: Seq<Card>) -> bool {
    forall|j: int|
        0 <= j < p.len() ==> (#[trigger] p[j]).rank.value_spec() == j + 1 && p[j].suit == p[0].suit
            && p[j].face_up
}

/// All card identities held by the twelve piles of a playfield.
pub open spec fn all_ids(v: StateView) -> Multiset<Card> {
    piles_ids(v.tableau).add(pile_ids(v.stock)).add(pile_ids(v.waste)).add(
        piles_ids(v.foundations),
    )
}

/// The playfield invariant: pile counts, pile shapes, orientations, the
/// draw mode, a non-negative score, and conservation of the 52 cards.
pub open spec fn wf_view(v: StateView) -> bool {
    &&& v.tableau.len() == 7
    &&& v.foundations.len() == 4
    &&& forall|c: int| 0 <= c < 7 ==> tableau_ok(#[trigger] v.tableau[c])
    &&& forall|f: int| 0 <= f < 4 ==> foundation_ok(#[trigger] v.foundations[f])
    &&& forall|i: int| 0 <= i < v.stock.len() ==> !(#[trigger] v.stock[i]).face_up
    &&& forall|i: int| 0 <= i < v.waste.len() ==> (#[trigger] v.waste[i]).face_up
    &&& v.draw_count == 1 || v.draw_count == 3
    &&& v.score >= 0
    &&& all_ids(v) == full_deck_ids()
}

impl GameState {
    /// The full invariant: a well-formed playfield, and a bounded history
    /// of well-formed snapshots.
    pub open spec fn wf(&self) -> bool {
        &&& wf_view(self@)
        &&& self.undo_stack@.len() <= 100
        &&& forall|i: int|
            0 <= i < self.undo_stack@.len() ==> wf_view((#[trigger] self.undo_stack@[i])@)
    }
}

// ---------------------------------------------------------------------------
// Move legality on single piles.
// ---------------------------------------------------------------------------

/// Whether `card` may be placed on top of tableau column `col`: an empty
/// column takes only a King, otherwise the stacking rule applies to the
/// column's top card.
pub open spec fn valid_tableau_spec(card: Card, col: Seq<Card>) -> bool {
    if col.len() == 0 {
        card.rank == Rank::King
    } else {
        card.can_stack_on_spec(col.last())
    }
}

/// Whether `card` may be placed on foundation `f`: an empty foundation
/// takes only an Ace, otherwise the same suit one rank up.
pub open spec fn valid_foundation_spec(card: Card, f: Seq<Card>) -> bool {
    if f.len() == 0 {
        card.rank == Rank::Ace
    } else {
        card.suit == f.last().suit && card.rank.value_spec() == f.last().rank.value_spec() + 1
    }
}

/// The game is won when all four foundations are complete.
pub open spec fn won_spec(v: StateView) -> bool {
    forall|f: int| 0 <= f < v.foundations.len() ==> (#[trigger] v.foundations[f]).len() == 13
}

/// The index of the first face-up card of a pile, or the pile's length if
/// every card is face down.
pub open spec fn face_up_start(p: Seq<Card>) -> int
    decreases p.len(),
{
    if p.len() == 0 {
        0
    } else if p[0].face_up {
        0
    } else {
        1 + face_up_start(p.drop_first())
    }
}

/// `face_up_start` is in range, everything before it is face down, and the
/// card at it (if any) is face up.
pub proof fn lemma_face_up_start(p: Seq<Card>)
    ensures
        0 <= face_up_start(p) <= p.len(),
        forall|i: int| 0 <= i < face_up_start(p) ==> !(#[trigger] p[i]).face_up,
        face_up_start(p) < p.len() ==> p[face_up_start(p)].face_up,
    decreases p.len(),
{
    if p.len() == 0 {
    } else if p[0].face_up {
    } else {
        lemma_face_up_start(p.drop_first());
        assert forall|i: int| 0 <= i < face_up_start(p) implies !(#[trigger] p[i]).face_up by {
            if i > 0 {
                assert(p.drop_first()[i - 1] == p[i]);
            }
        }
    }
}

impl GameState {
    /// Whether `card` may be placed on tableau column `target_col`; an
    /// out-of-range column index is simply not a legal destination.
    pub fn is_valid_tableau_move(&self, card: &Card, target_col: usize) -> (r: bool)
        ensures
            r == (target_col < self@.tableau.len() && valid_tableau_spec(
                *card,
                self@.tableau[target_col as int],
            )),
    {
        if target_col >= self.tableau.len() {
            return false;
        }
        let n = self.tableau[target_col].len();
        if n == 0 {
            card.rank == Rank::King
        } else {
            card.can_stack_on(&self.tableau[target_col][n - 1])
        }
    }

    /// Whether `card` may be placed on foundation `foundation_idx`; an
    /// out-of-range foundation index is simply not a legal destination.
    pub fn is_valid_foundation_move(&self, card: &Card, foundation_idx: usize) -> (r: bool)
        ensures
            r == (foundation_idx < self@.foundations.len() && valid_foundation_spec(
                *card,
                self@.foundations[foundation_idx as int],
            )),
    {
        if foundation_idx >= self.foundations.len() {
            return false;
        }
        let n = self.foundations[foundation_idx].len();
        if n == 0 {
            card.rank == Rank::Ace
        } else {
            let top = self.foundations[foundation_idx][n - 1];
            card.suit == top.suit && card.rank.value() == top.rank.value() + 1
        }
    }

    /// Whether all four foundations are complete.
    pub fn is_won(&self) -> (r: bool)
        ensures
            r == won_spec(self@),
    {
        let n = self.foundations.len();
        let mut f: usize = 0;
        while f < n
            invariant
                f <= n,
                n == self@.foundations.len(),
                forall|k: int| 0 <= k < f ==> (#[trigger] self@.foundations[k]).len() == 13,
            decreases n - f,
        {
            if self.foundations[f].len() != 13 {
                proof {
                    assert(self@.foundations[f as int].len() != 13);
                }
                return false;
            }
            f = f + 1;
        }
        true
    }
}

// ---------------------------------------------------------------------------
// Snapshots and undo.
// ---------------------------------------------------------------------------

/// The observable state is untouched: the playfield view and the undo
/// history are both exactly what they were.
pub open spec fn state_unchanged(pre: GameState, post: GameState) -> bool {
    post@ == pre@ && post.undo_stack@ == pre.undo_stack@
}

/// How one saved snapshot relates the history before and after: the oldest
/// entry is evicted at capacity 100, and the new last entry is a copy of
/// the pre-save playfield carrying no history of its own.
pub open spec fn history_saved(pre: GameState, post: GameState) -> bool {
    let h0 = pre.undo_stack@;
    let h1 = post.undo_stack@;
    &&& h1.len() == if h0.len() >= 100 {
        h0.len()
    } else {
        h0.len() + 1
    }
    &&& h1.last()@ == pre@
    &&& h1.last().undo_stack@.len() == 0
    &&& h1.drop_last() == if h0.len() >= 100 {
        h0.subrange(1, h0.len() as int)
    } else {
        h0
    }
}

pub(crate) fn clone_pile(p: &Vec<Card>) -> (r: Vec<Card>)
    ensures
        r@ == p@,
{
    let mut r: Vec<Card> = Vec::new();
    let mut i: usize = 0;
    while i < p.len()
        invariant
            i <= p.len(),
            r@ == p@.take(i as int),
        decreases p.len() - i,
    {
        r.push(p[i]);
        proof {
            assert(r@ =~= p@.take(i as int + 1));
        }
        i = i + 1;
    }
    proof {
        assert(r@ =~= p@);
    }
    r
}

fn clone_piles(ps: &Vec<Vec<Card>>) -> (r: Vec<Vec<Card>>)
    ensures
        r@.len() == ps@.len(),
        forall|i: int| 0 <= i < ps@.len() ==> (#[trigger] r@[i])@ == ps@[i]@,
{
    let mut r: Vec<Vec<Card>> = Vec::new();
    let mut i: usize = 0;
    while i < ps.len()
        invariant
            i <= ps.len(),
            r@.len() == i,
            forall|k: int| 0 <= k < i ==> (#[trigger] r@[k])@ == ps@[k]@,
        decreases ps.len() - i,
    {
        r.push(clone_pile(&ps[i]));
        i = i + 1;
    }
    r
}

impl GameState {
    /// A deep copy of the playfield with an empty history: the unit of undo.
    fn snapshot(&self) -> (s: GameState)
        ensures
            s@ == self@,
            s.undo_stack@.len() == 0,
    {
        let s = GameState {
            tableau: clone_piles(&self.tableau),
            stock: clone_pile(&self.stock),
            waste: clone_pile(&self.waste),
            foundations: clone_piles(&self.foundations),
            selected_card: self.selected_card,
            move_count: self.move_count,
            score: self.score,
            undo_stack: Vec::new(),
            draw_count: self.draw_count,
        };
        proof {
            assert(s@.tableau =~= self@.tableau);
            assert(s@.foundations =~= self@.foundations);
            assert(s@ =~= self@);
        }
        s
    }

    /// Push a snapshot of the current playfield onto the undo history,
    /// evicting the oldest snapshot first when the history is full.
    pub fn save_undo_state(&mut self)
        ensures
            final(self)@ == old(self)@,
            history_saved(*old(self), *final(self)),
            old(self).wf() ==> final(self).wf(),
    {
        let ghost h0 = self.undo_stack@;
        if self.undo_stack.len() >= 100 {
            self.undo_stack.remove(0);
            proof {
                assert(self.undo_stack@ =~= h0.subrange(1, h0.len() as int));
            }
        }
        let snap = self.snapshot();
        self.undo_stack.push(snap);
        proof {
            assert(self.undo_stack@.drop_last() =~= if h0.len() >= 100 {
                h0.subrange(1, h0.len() as int)
            } else {
                h0
            });
        }
    }

    /// Pop the most recent snapshot and restore its playfield; the history
    /// itself is never undone. Returns false with no effect when the
    /// history is empty.
    pub fn undo(&mut self) -> (r: bool)
        ensures
            old(self).undo_stack@.len() == 0 ==> r == false && state_unchanged(
                *old(self),
                *final(self),
            ),
            old(self).undo_stack@.len() > 0 ==> {
                &&& r == true
                &&& final(self)@ == old(self).undo_stack@.last()@
                &&& final(self).undo_stack@ == old(self).undo_stack@.drop_last()
            },
            old(self).wf() ==> final(self).wf(),
    {
        match self.undo_stack.pop() {
            None => false,
            Some(prev) => {
                let GameState {
                    tableau,
                    stock,
                    waste,
                    foundations,
                    selected_card,
                    move_count,
                    score,
                    undo_stack: _,
                    draw_count,
                } = prev;
                self.tableau = tableau;
                self.stock = stock;
                self.waste = waste;
                self.foundations = foundations;
                self.selected_card = selected_card;
                self.move_count = move_count;
                self.score = score;
                self.draw_count = draw_count;
                proof {
                    assert(self@ =~= old(self).undo_stack@.last()@);
                    assert(self.undo_stack@ =~= old(self).undo_stack@.drop_last());
                }
                true
            },
        }
    }
}

} // verus!

verus! {

// ---------------------------------------------------------------------------
// Dealing a new game.
// ---------------------------------------------------------------------------

/// The triangular number: how many cards the first `c` tableau columns take.
pub open spec fn tri(c: int) -> int
    decreases c,
{
    if c <= 0 {
        0
    } else {
        tri(c - 1) + c
    }
}

proof fn lemma_tri_values()
    ensures
        tri(0) == 0,
        tri(1) == 1,
        tri(2) == 3,
        tri(3) == 6,
        tri(4) == 10,
        tri(5) == 15,
        tri(6) == 21,
        tri(7) == 28,
{
    assert(tri(0) == 0);
    assert(tri(1) == 1);
    assert(tri(2) == 3);
    assert(tri(3) == 6);
    assert(tri(4) == 10);
    assert(tri(5) == 15);
    assert(tri(6) == 21);
    assert(tri(7) == 28);
}

proof fn lemma_pile_ids_empty()
    ensures
        pile_ids(Seq::<Card>::empty()) == Multiset::<Card>::empty(),
{
    broadcast use vstd::seq_lib::group_to_multiset_ensures;
    broadcast use vstd::multiset::group_multiset_axioms;

    let f = |x: Card| card_id(x);
    assert(Seq::<Card>::empty().map_values(f) =~= Seq::<Card>::empty());
    assert(Seq::<Card>::empty().to_multiset().len() == 0);
    vstd::multiset::lemma_multiset_empty_len::<Card>(Seq::<Card>::empty().to_multiset());
}

proof fn lemma_piles_ids_all_empty(ps: Seq<Seq<Card>>)
    requires
        forall|i: int| 0 <= i < ps.len() ==> (#[trigger] ps[i]).len() == 0,
    ensures
        piles_ids(ps) == Multiset::<Card>::empty(),
    decreases ps.len(),
{
    broadcast use vstd::multiset::group_multiset_axioms;

    if ps.len() == 0 {
    } else {
        lemma_piles_ids_all_empty(ps.drop_last());
        assert(ps.last() =~= Seq::<Card>::empty());
        lemma_pile_ids_empty();
        assert(piles_ids(ps) =~= Multiset::<Card>::empty());
    }
}

/// The shape of a freshly dealt playfield: a triangular tableau with only
/// the last-dealt card of each column face up, 24 face-down stock cards,
/// and everything else at its starting value.
pub open spec fn freshly_dealt(v: StateView) -> bool {
    &&& v.tableau.len() == 7
    &&& forall|c: int| 0 <= c < 7 ==> (#[trigger] v.tableau[c]).len() == c + 1
    &&& forall|c: int, r: int| #![trigger v.tableau[c][r]]
        0 <= c < 7 && 0 <= r <= c ==> (v.tableau[c][r].face_up <==> r == c)
    &&& v.stock.len() == 24
    &&& forall|i: int| 0 <= i < v.stock.len() ==> !(#[trigger] v.stock[i]).face_up
    &&& v.waste.len() == 0
    &&& v.foundations.len() == 4
    &&& forall|f: int| 0 <= f < 4 ==> (#[trigger] v.foundations[f]).len() == 0
    &&& v.selected is None
    &&& v.score == 0
    &&& v.move_count == 0
    &&& v.draw_count == 3
}

impl GameState {
    /// Deal a 52-card deck into a new game: column `c` of the tableau gets
    /// `c + 1` cards with only the last one face up, and the remaining 24
    /// cards become the stock, in the order left after dealing.
    pub fn deal(deck: Vec<Card>) -> (g: GameState)
        requires
            deck@.len() == 52,
            forall|i: int| 0 <= i < 52 ==> !(#[trigger] deck@[i]).face_up,
            deck@.to_multiset() == standard_deck().to_multiset(),
        ensures
            g.wf(),
            freshly_dealt(g@),
            g.undo_stack@.len() == 0,
            forall|c: int, r: int| #![trigger g@.tableau[c][r]]
                0 <= c < 7 && 0 <= r <= c ==> g@.tableau[c][r] == (Card {
                    face_up: r == c,
                    ..deck@[tri(c) + r]
                }),
            g@.stock == deck@.subrange(28, 52),
    {
        proof {
            lemma_tri_values();
            lemma_pile_ids_empty();
        }
        let mut tableau: Vec<Vec<Card>> = Vec::new();
        proof {
            assert(tableau@.map_values(|p: Vec<Card>| p@) =~= Seq::<Seq<Card>>::empty());
            assert(deck@.take(0) =~= Seq::<Card>::empty());
        }
        let mut di: usize = 0;
        let mut col: usize = 0;
        while col < 7
            invariant
                col <= 7,
                tableau@.len() == col,
                di as int == tri(col as int),
                di <= 28,
                deck@.len() == 52,
                forall|i: int| 0 <= i < 52 ==> !(#[trigger] deck@[i]).face_up,
                forall|c: int| 0 <= c < col ==> (#[trigger] tableau@[c])@.len() == c + 1,
                forall|c: int, r: int| #![trigger tableau@[c]@[r]]
                    0 <= c < col && 0 <= r <= c ==> (tableau@[c]@[r].face_up <==> r == c),
                forall|c: int, r: int| #![trigger tableau@[c]@[r]]
                    0 <= c < col && 0 <= r <= c ==> tableau@[c]@[r] == (Card {
                        face_up: r == c,
                        ..deck@[tri(c) + r]
                    }),
                piles_ids(tableau@.map_values(|p: Vec<Card>| p@)) == pile_ids(
                    deck@.take(di as int),
                ),
            decreases 7 - col,
        {
            proof {
                lemma_tri_values();
            }
            let ghost start = di as int;
            let mut column: Vec<Card> = Vec::new();
            let mut row: usize = 0;
            while row <= col
                invariant
                    col < 7,
                    row <= col + 1,
                    di as int == start + row,
                    start == tri(col as int),
                    start + col + 1 <= 28,
                    deck@.len() == 52,
                    forall|i: int| 0 <= i < 52 ==> !(#[trigger] deck@[i]).face_up,
                    column@.len() == row,
                    forall|k: int|
                        0 <= k < row ==> #[trigger] column@[k] == (Card {
                            face_up: k == col,
                            ..deck@[start + k]
                        }),
                decreases col + 1 - row,
            {
                let mut c = deck[di];
                if row == col {
                    c.flip();
                }
                column.push(c);
                di = di + 1;
                row = row + 1;
            }
            proof {
                lemma_pile_ids_same(column@, deck@.subrange(start, di as int));
                let tv = tableau@.map_values(|p: Vec<Card>| p@);
                lemma_piles_ids_snoc(tv, column@);
                lemma_pile_ids_append(deck@.take(start), deck@.subrange(start, di as int));
                assert(deck@.take(start) + deck@.subrange(start, di as int) =~= deck@.take(
                    di as int,
                ));
                assert(tableau@.push(column).map_values(|p: Vec<Card>| p@) =~= tv.push(column@));
            }
            tableau.push(column);
            col = col + 1;
        }
        let mut stock: Vec<Card> = Vec::new();
        while di < 52
            invariant
                28 <= di <= 52,
                deck@.len() == 52,
                forall|i: int| 0 <= i < 52 ==> !(#[trigger] deck@[i]).face_up,
                stock@ == deck@.subrange(28, di as int),
            decreases 52 - di,
        {
            stock.push(deck[di]);
            proof {
                assert(stock@ =~= deck@.subrange(28, di as int + 1));
            }
            di = di + 1;
        }
        let mut foundations: Vec<Vec<Card>> = Vec::new();
        foundations.push(Vec::new());
        foundations.push(Vec::new());
        foundations.push(Vec::new());
        foundations.push(Vec::new());
        let g = GameState {
            tableau,
            stock,
            waste: Vec::new(),
            foundations,
            selected_card: None,
            move_count: 0,
            score: 0,
            undo_stack: Vec::new(),
            draw_count: 3,
        };
        proof {
            broadcast use vstd::multiset::group_multiset_axioms;

            let v = g@;
            assert(v.foundations.len() == 4);
            assert forall|f: int| 0 <= f < 4 implies (#[trigger] v.foundations[f]).len() == 0 by {
                assert(v.foundations[f] == g.foundations@[f]@);
            }
            lemma_piles_ids_all_empty(v.foundations);
            lemma_pile_ids_empty();
            // the tableau holds the first 28 cards, the stock the other 24
            lemma_pile_ids_append(deck@.take(28), deck@.subrange(28, 52));
            assert(deck@.take(28) + deck@.subrange(28, 52) =~= deck@);
            assert(v.stock =~= deck@.subrange(28, 52));
            lemma_face_down_ids(deck@);
            lemma_face_down_ids(standard_deck());
            assert(all_ids(v) =~= full_deck_ids());
            assert forall|c: int, r: int| #![trigger v.tableau[c][r]]
                0 <= c < 7 && 0 <= r <= c implies v.tableau[c][r] == (Card {
                face_up: r == c,
                ..deck@[tri(c) + r]
            }) by {
                assert(v.tableau[c] == g.tableau@[c]@);
                assert(g.tableau@[c]@[r] == (Card { face_up: r == c, ..deck@[tri(c) + r] }));
            }
            // pile shapes
            assert forall|c: int| 0 <= c < 7 implies tableau_ok(#[trigger] v.tableau[c]) by {
                let p = v.tableau[c];
                assert(p.len() == c + 1);
                assert(p[c].face_up);
            }
            assert(wf_view(v));
        }
        g
    }

    /// Start a new game: build the standard deck, shuffle it, and deal.
    pub fn new() -> (g: GameState)
        ensures
            g.wf(),
            freshly_dealt(g@),
            g.undo_stack@.len() == 0,
    {
        let mut deck = create_standard_deck();
        shuffle_cards(&mut deck);
        proof {
            lemma_multiset_face_down(standard_deck(), deck@);
        }
        GameState::deal(deck)
    }

    /// Flip the draw mode between one and three cards per draw; nothing
    /// else changes and no snapshot is taken.
    pub fn toggle_draw_count(&mut self)
        ensures
            final(self)@ == (StateView {
                draw_count: if old(self)@.draw_count == 1 {
                    3int
                } else {
                    1int
                },
                ..old(self)@
            }),
            final(self).undo_stack@ == old(self).undo_stack@,
            old(self).wf() ==> final(self).wf(),
    {
        self.draw_count = if self.draw_count == 1 {
            3
        } else {
            1
        };
        proof {
            assert(self@ =~= (StateView {
                draw_count: if old(self)@.draw_count == 1 {
                    3int
                } else {
                    1int
                },
                ..old(self)@
            }));
        }
    }
}

} // verus!

verus! {

// ---------------------------------------------------------------------------
// Drawing from the stock.
// ---------------------------------------------------------------------------

/// Every card of the pile turned face down.
pub open spec fn flip_down_all(p: Seq<Card>) -> Seq<Card> {
    p.map_values(|c: Card| Card { face_up: false, ..c })
}

/// Every card of the pile turned face up.
pub open spec fn flip_up_all(p: Seq<Card>) -> Seq<Card> {
    p.map_values(|c: Card| Card { face_up: true, ..c })
}

/// What one draw does to the playfield. With an empty stock the waste is
/// recycled: it returns to the stock in reverse order, face down, for a
/// score penalty of 20 (floored at zero). Otherwise `min(draw_count,
/// stock.len())` cards move from the top of the stock to the top of the
/// waste, turned face up, the last card popped ending on top. The move
/// counter always advances.
pub open spec fn draw_spec(v: StateView) -> StateView {
    if v.stock.len() == 0 {
        StateView {
            stock: flip_down_all(v.waste.reverse()),
            waste: Seq::empty(),
            score: if v.score - 20 >= 0 {
                v.score - 20
            } else {
                0
            },
            move_count: v.move_count + 1,
            ..v
        }
    } else {
        let k = if v.draw_count <= v.stock.len() {
            v.draw_count
        } else {
            v.stock.len() as int
        };
        StateView {
            stock: v.stock.take(v.stock.len() - k),
            waste: v.waste + flip_up_all(v.stock.skip(v.stock.len() - k).reverse()),
            move_count: v.move_count + 1,
            ..v
        }
    }
}

/// A draw preserves the playfield invariant.
pub proof fn lemma_draw_wf(v: StateView)
    requires
        wf_view(v),
    ensures
        wf_view(draw_spec(v)),
{
    broadcast use vstd::multiset::group_multiset_axioms;

    let v1 = draw_spec(v);
    if v.stock.len() == 0 {
        crate::card::lemma_pile_ids_reverse(v.waste);
        lemma_pile_ids_same(flip_down_all(v.waste.reverse()), v.waste.reverse());
        lemma_pile_ids_empty();
        assert(v.stock =~= Seq::<Card>::empty());
        assert(all_ids(v1) =~= all_ids(v));
        assert forall|i: int| 0 <= i < v1.stock.len() implies !(#[trigger] v1.stock[i]).face_up by {
            assert(v1.stock[i] == (Card { face_up: false, ..v.waste.reverse()[i] }));
        }
    } else {
        let n = v.stock.len() as int;
        let k = if v.draw_count <= n {
            v.draw_count
        } else {
            n
        };
        let moved = v.stock.skip(n - k);
        lemma_pile_ids_append(v.stock.take(n - k), moved);
        assert(v.stock.take(n - k) + moved =~= v.stock);
        crate::card::lemma_pile_ids_reverse(moved);
        lemma_pile_ids_same(flip_up_all(moved.reverse()), moved.reverse());
        lemma_pile_ids_append(v.waste, flip_up_all(moved.reverse()));
        assert(all_ids(v1) =~= all_ids(v));
        assert forall|i: int| 0 <= i < v1.stock.len() implies !(#[trigger] v1.stock[i]).face_up by {
            assert(v1.stock[i] == v.stock[i]);
        }
        assert forall|i: int| 0 <= i < v1.waste.len() implies (#[trigger] v1.waste[i]).face_up by {
            if i >= v.waste.len() {
                assert(v1.waste[i] == (Card { face_up: true, ..moved.reverse()[i - v.waste.len()] }));
            }
        }
    }
}

/// The history after an operation that saved one snapshot is still a
/// bounded stack of well-formed playfields.
pub proof fn lemma_history_saved_stack(pre: GameState, post: GameState)
    requires
        pre.wf(),
        history_saved(pre, post),
    ensures
        post.undo_stack@.len() <= 100,
        forall|i: int|
            0 <= i < post.undo_stack@.len() ==> wf_view((#[trigger] post.undo_stack@[i])@),
{
    let h0 = pre.undo_stack@;
    let h1 = post.undo_stack@;
    assert forall|i: int| 0 <= i < h1.len() implies wf_view((#[trigger] h1[i])@) by {
        if i == h1.len() - 1 {
            assert(h1[i] == h1.last());
        } else {
            assert(h1.drop_last()[i] == h1[i]);
            if h0.len() >= 100 {
                assert(h1[i] == h0[i + 1]);
            } else {
                assert(h1[i] == h0[i]);
            }
        }
    }
}

impl GameState {
    /// Draw from the stock (or recycle the waste when the stock is empty),
    /// after saving an undo snapshot; see `draw_spec` for the exact effect.
    pub fn draw_from_stock(&mut self)
        requires
            old(self).wf(),
            old(self).move_count < u32::MAX,
        ensures
            final(self).wf(),
            final(self)@ == draw_spec(old(self)@),
            history_saved(*old(self), *final(self)),
    {
        self.save_undo_state();
        if self.stock.len() == 0 {
            let ghost w0 = self.waste@;
            proof {
                assert(self.stock@ =~= Seq::<Card>::empty());
            }
            while self.waste.len() > 0
                invariant
                    self.waste@ == w0.take(self.waste@.len() as int),
                    self.stock@.len() + self.waste@.len() == w0.len(),
                    forall|j: int|
                        0 <= j < self.stock@.len() ==> #[trigger] self.stock@[j] == (Card {
                            face_up: false,
                            ..w0[w0.len() - 1 - j]
                        }),
                    self@.tableau == old(self)@.tableau,
                    self@.foundations == old(self)@.foundations,
                    self.selected_card == old(self).selected_card,
                    self.score == old(self).score,
                    self.move_count == old(self).move_count,
                    self.draw_count == old(self).draw_count,
                    history_saved(*old(self), *self),
                decreases self.waste@.len(),
            {
                let mut c = self.waste.pop().unwrap();
                c.face_up = false;
                self.stock.push(c);
                proof {
                    assert(self.waste@ =~= w0.take(self.waste@.len() as int));
                }
            }
            let s = self.score - 20;
            self.score = if s < 0 {
                0
            } else {
                s
            };
            proof {
                assert(self.stock@ =~= flip_down_all(w0.reverse()));
                assert(self.waste@ =~= Seq::<Card>::empty());
            }
        } else {
            let k = if self.draw_count <= self.stock.len() {
                self.draw_count
            } else {
                self.stock.len()
            };
            let ghost s0 = self.stock@;
            let ghost wst0 = self.waste@;
            let mut t: usize = 0;
            while t < k
                invariant
                    t <= k,
                    k <= s0.len(),
                    self.stock@ == s0.take(s0.len() - t),
                    self.waste@.len() == wst0.len() + t,
                    forall|j: int| 0 <= j < wst0.len() ==> #[trigger] self.waste@[j] == wst0[j],
                    forall|j: int|
                        0 <= j < t ==> #[trigger] self.waste@[wst0.len() + j] == (Card {
                            face_up: true,
                            ..s0[s0.len() - 1 - j]
                        }),
                    self@.tableau == old(self)@.tableau,
                    self@.foundations == old(self)@.foundations,
                    self.selected_card == old(self).selected_card,
                    self.score == old(self).score,
                    self.move_count == old(self).move_count,
                    self.draw_count == old(self).draw_count,
                    history_saved(*old(self), *self),
                decreases k - t,
            {
                let mut c = self.stock.pop().unwrap();
                c.face_up = true;
                self.waste.push(c);
                proof {
                    assert(self.stock@ =~= s0.take(s0.len() - (t + 1)));
                }
                t = t + 1;
            }
            proof {
                let n = s0.len() as int;
                assert(k as int == if old(self)@.draw_count <= n {
                    old(self)@.draw_count
                } else {
                    n
                });
                let moved = s0.skip(n - k);
                assert forall|i: int| 0 <= i < self.waste@.len() implies self.waste@[i] == (wst0
                    + flip_up_all(moved.reverse()))[i] by {
                    if i >= wst0.len() {
                        let j = i - wst0.len();
                        assert(self.waste@[wst0.len() + j] == (Card {
                            face_up: true,
                            ..s0[s0.len() - 1 - j]
                        }));
                        assert(moved.reverse()[j] == s0[s0.len() - 1 - j]);
                    }
                }
                assert(self.waste@ =~= wst0 + flip_up_all(moved.reverse()));
            }
        }
        self.move_count = self.move_count + 1;
        proof {
            lemma_draw_wf(old(self)@);
            assert(self@ =~= draw_spec(old(self)@));
            lemma_history_saved_stack(*old(self), *self);
        }
    }
}

} // verus!

verus! {

/// In a well-formed playfield no pile outgrows the deck: tableau, stock
/// and waste hold at most 52 cards, and a foundation at most 13.
pub proof fn lemma_wf_pile_bounds(v: StateView)
    requires
        wf_view(v),
    ensures
        forall|c: int| 0 <= c < 7 ==> (#[trigger] v.tableau[c]).len() <= 52,
        v.stock.len() <= 52,
        v.waste.len() <= 52,
        forall|f: int| 0 <= f < 4 ==> (#[trigger] v.foundations[f]).len() <= 13,
{
    broadcast use vstd::multiset::group_multiset_axioms;

    crate::card::lemma_pile_ids_len(crate::card::standard_deck());
    assert(full_deck_ids().len() == 52);
    assert(all_ids(v).len() == 52);
    assert forall|c: int| 0 <= c < 7 implies (#[trigger] v.tableau[c]).len() <= 52 by {
        crate::card::lemma_piles_ids_member_len(v.tableau, c);
        crate::card::lemma_pile_ids_len(v.tableau[c]);
    }
    crate::card::lemma_pile_ids_len(v.stock);
    crate::card::lemma_pile_ids_len(v.waste);
    assert forall|f: int| 0 <= f < 4 implies (#[trigger] v.foundations[f]).len() <= 13 by {
        let p = v.foundations[f];
        if p.len() > 13 {
            assert(p[13].rank.value_spec() == 14);
        }
    }
}

} // verus!

verus! {

/// The first face-up index of a pile (its length when all face down).
pub(crate) fn first_face_up(col: &Vec<Card>) -> (i: usize)
    ensures
        i as int == face_up_start(col@),
{
    proof {
        lemma_face_up_start(col@);
    }
    let n = col.len();
    let mut i: usize = 0;
    while i < n
        invariant
            i <= n,
            n == col@.len(),
            forall|k: int| 0 <= k < i ==> !(#[trigger] col@[k]).face_up,
        decreases n - i,
    {
        if col[i].face_up {
            proof {
                lemma_face_up_start(col@);
                if (i as int) < face_up_start(col@) {
                    assert(!col@[i as int].face_up);
                }
                if (i as int) > face_up_start(col@) {
                    assert(col@[face_up_start(col@)].face_up);
                }
            }
            return i;
        }
        i = i + 1;
    }
    proof {
        lemma_face_up_start(col@);
        if face_up_start(col@) < col@.len() {
            assert(col@[face_up_start(col@)].face_up);
        }
    }
    n
}

} // verus!

verus! {

/// The playfield views of a snapshot stack.
pub open spec fn history_views(h: Seq<GameState>) -> Seq<StateView> {
    h.map_values(|g: GameState| g@)
}

/// The stack `h1` holds exactly the last (up to 100) of the playfields in
/// `total`, oldest first.
pub open spec fn saved_suffix(h1: Seq<GameState>, total: Seq<StateView>) -> bool {
    let keep = if total.len() <= 100 {
        total.len() as int
    } else {
        100int
    };
    &&& h1.len() == keep
    &&& forall|i: int| 0 <= i < keep ==> (#[trigger] h1[i])@ == total[total.len() - keep + i]
}

/// One saved snapshot extends the suffix relation by the pre-save
/// playfield.
pub proof fn lemma_saved_suffix_step(pre: GameState, post: GameState, total: Seq<StateView>)
    requires
        saved_suffix(pre.undo_stack@, total),
        history_saved(pre, post),
    ensures
        saved_suffix(post.undo_stack@, total + seq![pre@]),
{
    let h0 = pre.undo_stack@;
    let h1 = post.undo_stack@;
    let total1 = total + seq![pre@];
    let keep0 = if total.len() <= 100 {
        total.len() as int
    } else {
        100int
    };
    let keep1 = if total1.len() <= 100 {
        total1.len() as int
    } else {
        100int
    };
    assert(total1.last() == pre@);
    assert forall|i: int| 0 <= i < keep1 implies (#[trigger] h1[i])@ == total1[total1.len() - keep1
        + i] by {
        if i == keep1 - 1 {
            assert(h1[i] == h1.last());
        } else {
            assert(h1.drop_last()[i] == h1[i]);
            if h0.len() >= 100 {
                assert(h1[i] == h0[i + 1]);
                assert(h0[i + 1]@ == total[total.len() - keep0 + i + 1]);
            } else {
                assert(h1[i] == h0[i]);
                assert(h0[i]@ == total[total.len() - keep0 + i]);
            }
            assert(total1[total1.len() - keep1 + i] == total[total1.len() - keep1 + i]);
        }
    }
}

} // verus!
