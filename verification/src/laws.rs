//! The engine's global laws, each stated once over the invariant and the
//! operation contracts, and machine-checked here.

use vstd::prelude::*;
use crate::card::full_deck_ids;
use crate::game::{GameState, all_ids, foundation_ok, tableau_ok, won_spec};

verus! {

/// Card conservation: at all times a well-formed game partitions exactly
/// the 52 standard cards across its twelve piles — no duplicates and no
/// omissions. Every engine operation requires and re-establishes `wf`,
/// so this holds in every reachable state.
pub proof fn lemma_card_conservation(g: GameState)
    requires
        g.wf(),
    ensures
        all_ids(g@) == full_deck_ids(),
{
}

/// Every foundation of a well-formed game is a strictly increasing
/// same-suit run starting at the Ace, and the game is won exactly when
/// all four foundations hold thirteen cards.
pub proof fn lemma_foundation_runs(g: GameState)
    requires
        g.wf(),
    ensures
        forall|f: int| 0 <= f < 4 ==> foundation_ok(#[trigger] g@.foundations[f]),
        won_spec(g@) <==> forall|f: int|
            0 <= f < 4 ==> (#[trigger] g@.foundations[f]).len() == 13,
{
}

/// In every tableau column of a well-formed game the face-down cards form
/// a prefix and the face-up cards a suffix: no face-down card ever sits
/// above a face-up one.
pub proof fn lemma_tableau_orientation(g: GameState)
    requires
        g.wf(),
    ensures
        forall|c: int| 0 <= c < 7 ==> tableau_ok(#[trigger] g@.tableau[c]),
{
}

/// Saving a snapshot and undoing immediately restores the prior playfield
/// exactly: piles, orientations, score, move count, draw mode and
/// selection all return to what they were.
pub fn save_then_undo_restores(g: &mut GameState) -> (r: bool)
    requires
        old(g).wf(),
    ensures
        r == true,
        final(g)@ == old(g)@,
        final(g).wf(),
{
    g.save_undo_state();
    g.undo()
}

} // verus!
