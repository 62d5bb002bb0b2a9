//! The intent layer: discrete player intents, the screen-coordinate map,
//! and the dispatcher that turns an intent into engine operations.
//!
//! Decoding keyboard and mouse events into intents is I/O and lives
//! outside the library; everything from the intent on is verified here.

use vstd::prelude::*;
use crate::game::{
    GameState, PileType, StateView, draw_spec, face_up_start, first_face_up, history_saved,
    state_unchanged,
};
use crate::hint::{Hint, hint_spec};
use crate::moves::{
    MoveLocation, apply_move_spec, attempt_move, first_tableau_foundation_target, foundation_loc,
    tab_top_loc, valid_move_spec, waste_foundation_target, waste_top_loc,
};

verus! {

/// A discrete player intent, as decoded from a key press or a mouse click.
#[derive(Copy, Clone, Debug)]
pub enum InputAction {
    SelectColumn(usize),
    SelectWaste,
    DrawFromStock,
    SelectFoundation(usize),
    AutoMove,
    Undo,
    Hint,
    Quit,
    ToggleDrawCount,
    MouseClick(u16, u16),
    MouseDrag(u16, u16),
    NoOp,
}

// ---------------------------------------------------------------------------
// Mapping screen coordinates to a pile position.
// ---------------------------------------------------------------------------

/// Which pile position a click at screen coordinates `(x, y)` addresses,
/// under the fixed board layout: the stock and waste and foundations sit
/// on row 6, the tableau columns start at row 10, six columns of text per
/// tableau column and five per foundation.
pub open spec fn mouse_pos_spec(x: u16, y: u16, v: StateView) -> Option<(PileType, usize, usize)> {
    if y == 6 && 9 <= x <= 14 {
        Some((PileType::Stock, 0usize, 0usize))
    } else if y == 6 && 16 <= x <= 35 && v.waste.len() > 0 {
        Some((PileType::Waste, 0usize, (v.waste.len() - 1) as usize))
    } else if y == 6 && 53 <= x <= 70 && (x - 53) / 5 < 4 {
        Some((PileType::Foundation, ((x - 53) / 5) as usize, 0usize))
    } else if y >= 10 && 2 <= x <= 44 && (x - 2) / 6 < 7 {
        let col = (x - 2) / 6;
        let row = y - 10;
        if v.tableau[col as int].len() == 0 || row >= v.tableau[col as int].len() {
            Some((PileType::Tableau, col as usize, v.tableau[col as int].len() as usize))
        } else {
            Some((PileType::Tableau, col as usize, row as usize))
        }
    } else {
        None
    }
}

/// Map a mouse click to the pile position it addresses, if any.
pub fn convert_mouse_to_game_position(x: u16, y: u16, game: &GameState) -> (r: Option<
    (PileType, usize, usize),
>)
    requires
        game.wf(),
    ensures
        r == mouse_pos_spec(x, y, game@),
{
    proof {
        crate::game::lemma_wf_pile_bounds(game@);
    }
    if y == 6 && x >= 9 && x <= 14 {
        return Some((PileType::Stock, 0, 0));
    }
    if y == 6 && x >= 16 && x <= 35 {
        if game.waste.len() > 0 {
            return Some((PileType::Waste, 0, game.waste.len() - 1));
        }
        return None;
    }
    if y == 6 && x >= 53 && x <= 70 {
        let foundation_idx = ((x - 53) / 5) as usize;
        if foundation_idx < 4 {
            return Some((PileType::Foundation, foundation_idx, 0));
        }
        return None;
    }
    if y >= 10 && x >= 2 && x <= 44 {
        let col = ((x - 2) / 6) as usize;
        if col < 7 {
            let row = (y - 10) as usize;
            let n = game.tableau[col].len();
            if n == 0 || row >= n {
                return Some((PileType::Tableau, col, n));
            } else {
                return Some((PileType::Tableau, col, row));
            }
        }
        return None;
    }
    None
}

// ---------------------------------------------------------------------------
// The effect of each intent, as relations between states.
// ---------------------------------------------------------------------------

/// Only the selection changed; piles, counters and history are untouched.
pub open spec fn selection_only(
    pre: GameState,
    post: GameState,
    sel: Option<(PileType, usize, usize)>,
) -> bool {
    post@ == (StateView { selected: sel, ..pre@ }) && post.undo_stack@ == pre.undo_stack@
}

/// A move from `from` to `to` was attempted and the selection cleared:
/// when legal it was applied (with a snapshot saved first), otherwise
/// nothing but the selection changed.
pub open spec fn attempted_then_deselect(
    pre: GameState,
    post: GameState,
    from: MoveLocation,
    to: MoveLocation,
) -> bool {
    if valid_move_spec(pre@, from, to) {
        post@ == (StateView {
            selected: None::<(PileType, usize, usize)>,
            ..apply_move_spec(pre@, from, to)
        }) && history_saved(pre, post)
    } else {
        selection_only(pre, post, None::<(PileType, usize, usize)>)
    }
}

/// The canonical destination location for tableau column `col`.
pub open spec fn tableau_dest_loc(v: StateView, col: int) -> MoveLocation {
    MoveLocation {
        pile_type: PileType::Tableau,
        pile_index: col as usize,
        card_index: v.tableau[col].len() as usize,
    }
}

/// What selecting a column picks: its first face-up card, or nothing.
pub open spec fn column_selection(v: StateView, col: int) -> Option<(PileType, usize, usize)> {
    if v.tableau[col].len() > 0 && face_up_start(v.tableau[col]) < v.tableau[col].len() {
        Some((PileType::Tableau, col as usize, face_up_start(v.tableau[col]) as usize))
    } else {
        None
    }
}

/// What clicking a column at `row` picks: the first face-up card, when the
/// clicked card itself is face up.
pub open spec fn click_selection(v: StateView, col: int, row: int) -> Option<
    (PileType, usize, usize),
> {
    if row < v.tableau[col].len() && v.tableau[col][row].face_up {
        Some((PileType::Tableau, col as usize, face_up_start(v.tableau[col]) as usize))
    } else {
        None
    }
}

/// Selecting the waste toggles its top card in and out of the selection.
pub open spec fn waste_toggle_sel(pre: GameState) -> Option<(PileType, usize, usize)> {
    if pre@.waste.len() == 0 {
        pre.selected_card
    } else if pre.selected_card == Some(
        (PileType::Waste, 0usize, (pre@.waste.len() - 1) as usize),
    ) {
        None::<(PileType, usize, usize)>
    } else {
        Some((PileType::Waste, 0usize, (pre@.waste.len() - 1) as usize))
    }
}

/// The effect of selecting tableau column `col`: with a selection held,
/// try to move it here and deselect; with none, pick the column's first
/// face-up card.
pub open spec fn select_column_effect(pre: GameState, post: GameState, col: usize) -> bool {
    if col >= 7 {
        state_unchanged(pre, post)
    } else {
        match pre.selected_card {
            Some((PileType::Tableau, fc, fr)) => if fc != col {
                attempted_then_deselect(
                    pre,
                    post,
                    MoveLocation { pile_type: PileType::Tableau, pile_index: fc, card_index: fr },
                    tableau_dest_loc(pre@, col as int),
                )
            } else {
                selection_only(pre, post, None::<(PileType, usize, usize)>)
            },
            Some((PileType::Waste, _wi, _wj)) => if pre@.waste.len() > 0 {
                attempted_then_deselect(
                    pre,
                    post,
                    waste_top_loc(pre@),
                    tableau_dest_loc(pre@, col as int),
                )
            } else {
                selection_only(pre, post, None::<(PileType, usize, usize)>)
            },
            Some(_) => selection_only(pre, post, None::<(PileType, usize, usize)>),
            None => selection_only(pre, post, column_selection(pre@, col as int)),
        }
    }
}

/// The effect of one opportunistic foundation move, as the auto-move
/// operation promises it.
pub open spec fn auto_single_effect(pre: GameState, post: GameState) -> bool {
    match waste_foundation_target(pre@) {
        Some(f) => post@ == apply_move_spec(pre@, waste_top_loc(pre@), foundation_loc(pre@, f))
            && history_saved(pre, post),
        None => match first_tableau_foundation_target(pre@, 0) {
            Some((c, f)) => post@ == apply_move_spec(
                pre@,
                tab_top_loc(pre@, c),
                foundation_loc(pre@, f),
            ) && history_saved(pre, post),
            None => false,
        },
    }
}

/// Whether an opportunistic foundation move exists.
pub open spec fn auto_single_possible(v: StateView) -> bool {
    waste_foundation_target(v) is Some || first_tableau_foundation_target(v, 0) is Some
}

/// The effect of the auto-move intent: one foundation move if possible,
/// else the hinted column-to-column run move if the hint offers one. The
/// selection is untouched.
pub open spec fn automove_effect(pre: GameState, post: GameState) -> bool {
    if auto_single_possible(pre@) {
        auto_single_effect(pre, post)
    } else {
        match hint_spec(pre@) {
            Some(Hint::TableauToTableau { card, from_col, to_col }) => {
                let p = pre@.tableau[from_col as int];
                let fi = face_up_start(p);
                if fi < p.len() {
                    let from = MoveLocation {
                        pile_type: PileType::Tableau,
                        pile_index: from_col,
                        card_index: fi as usize,
                    };
                    let to = tableau_dest_loc(pre@, to_col as int);
                    if valid_move_spec(pre@, from, to) {
                        post@ == apply_move_spec(pre@, from, to) && history_saved(pre, post)
                    } else {
                        state_unchanged(pre, post)
                    }
                } else {
                    state_unchanged(pre, post)
                }
            },
            _ => state_unchanged(pre, post),
        }
    }
}

/// The effect of undo: restore the latest snapshot's playfield, or do
/// nothing when the history is empty.
pub open spec fn undo_effect(pre: GameState, post: GameState) -> bool {
    if pre.undo_stack@.len() == 0 {
        state_unchanged(pre, post)
    } else {
        post@ == pre.undo_stack@.last()@ && post.undo_stack@ == pre.undo_stack@.drop_last()
    }
}

/// The effect of a mouse click, by the pile position it addresses.
pub open spec fn mouseclick_effect(pre: GameState, post: GameState, x: u16, y: u16) -> bool {
    match mouse_pos_spec(x, y, pre@) {
        None => selection_only(pre, post, None::<(PileType, usize, usize)>),
        Some((PileType::Stock, _pi, _ci)) => post@ == (StateView {
            selected: None::<(PileType, usize, usize)>,
            ..draw_spec(pre@)
        }) && history_saved(pre, post),
        Some((PileType::Waste, _pi, _ci)) => selection_only(pre, post, waste_toggle_sel(pre)),
        Some((PileType::Tableau, col, row)) => match pre.selected_card {
            Some((PileType::Waste, _a, _b)) => if pre@.waste.len() > 0 {
                attempted_then_deselect(
                    pre,
                    post,
                    waste_top_loc(pre@),
                    tableau_dest_loc(pre@, col as int),
                )
            } else {
                selection_only(pre, post, None::<(PileType, usize, usize)>)
            },
            Some((PileType::Tableau, fc, fr)) => if fc != col {
                attempted_then_deselect(
                    pre,
                    post,
                    MoveLocation { pile_type: PileType::Tableau, pile_index: fc, card_index: fr },
                    tableau_dest_loc(pre@, col as int),
                )
            } else {
                selection_only(pre, post, None::<(PileType, usize, usize)>)
            },
            Some(_) => selection_only(pre, post, None::<(PileType, usize, usize)>),
            None => selection_only(pre, post, click_selection(pre@, col as int, row as int)),
        },
        Some((PileType::Foundation, f, _ci)) => match pre.selected_card {
            Some((PileType::Waste, _a, _b)) => if pre@.waste.len() > 0 {
                attempted_then_deselect(
                    pre,
                    post,
                    waste_top_loc(pre@),
                    foundation_loc(pre@, f as int),
                )
            } else {
                selection_only(pre, post, None::<(PileType, usize, usize)>)
            },
            Some((PileType::Tableau, fc, _fr)) => if fc < 7 && pre@.tableau[fc as int].len() > 0 {
                attempted_then_deselect(
                    pre,
                    post,
                    tab_top_loc(pre@, fc as int),
                    foundation_loc(pre@, f as int),
                )
            } else {
                selection_only(pre, post, None::<(PileType, usize, usize)>)
            },
            Some(_) => selection_only(pre, post, None::<(PileType, usize, usize)>),
            None => state_unchanged(pre, post),
        },
    }
}

/// The draw mode after a toggle.
pub open spec fn toggled_draw(v: StateView) -> StateView {
    StateView {
        draw_count: if v.draw_count == 1 {
            3int
        } else {
            1int
        },
        ..v
    }
}

// ---------------------------------------------------------------------------
// The dispatcher.
// ---------------------------------------------------------------------------

/// Apply one player intent to the game. Returns true only for a quit
/// intent. Every illegal or out-of-range request leaves the playfield,
/// score, counters and history exactly as they were.
pub fn handle_game_action(game: &mut GameState, action: InputAction) -> (r: bool)
    requires
        old(game).wf(),
        old(game).score + 15 <= i32::MAX,
        old(game).move_count < u32::MAX,
    ensures
        final(game).wf(),
        r == (action is Quit),
        match action {
            InputAction::SelectColumn(col) => select_column_effect(*old(game), *final(game), col),
            InputAction::SelectWaste => selection_only(
                *old(game),
                *final(game),
                waste_toggle_sel(*old(game)),
            ),
            InputAction::DrawFromStock => final(game)@ == (StateView {
                selected: None::<(PileType, usize, usize)>,
                ..draw_spec(old(game)@)
            }) && history_saved(*old(game), *final(game)),
            InputAction::SelectFoundation(_) => state_unchanged(*old(game), *final(game)),
            InputAction::AutoMove => automove_effect(*old(game), *final(game)),
            InputAction::Undo => undo_effect(*old(game), *final(game)),
            InputAction::Hint => state_unchanged(*old(game), *final(game)),
            InputAction::Quit => state_unchanged(*old(game), *final(game)),
            InputAction::ToggleDrawCount => final(game)@ == toggled_draw(old(game)@)
                && final(game).undo_stack@ == old(game).undo_stack@,
            InputAction::MouseClick(x, y) => mouseclick_effect(*old(game), *final(game), x, y),
            InputAction::MouseDrag(_, _) => state_unchanged(*old(game), *final(game)),
            InputAction::NoOp => state_unchanged(*old(game), *final(game)),
        },
{
    match action {
        InputAction::SelectColumn(col) => {
            if col < 7 {
                match game.selected_card {
                    Some((pt, fc, fr)) => {
                        match pt {
                            PileType::Tableau => {
                                if fc != col {
                                    let from = MoveLocation {
                                        pile_type: PileType::Tableau,
                                        pile_index: fc,
                                        card_index: fr,
                                    };
                                    let to = MoveLocation {
                                        pile_type: PileType::Tableau,
                                        pile_index: col,
                                        card_index: game.tableau[col].len(),
                                    };
                                    attempt_move(game, from, to);
                                }
                            },
                            PileType::Waste => {
                                if game.waste.len() > 0 {
                                    let from = MoveLocation {
                                        pile_type: PileType::Waste,
                                        pile_index: 0,
                                        card_index: game.waste.len() - 1,
                                    };
                                    let to = MoveLocation {
                                        pile_type: PileType::Tableau,
                                        pile_index: col,
                                        card_index: game.tableau[col].len(),
                                    };
                                    attempt_move(game, from, to);
                                }
                            },
                            _ => {},
                        }
                        game.selected_card = None;
                    },
                    None => {
                        if game.tableau[col].len() > 0 {
                            let s = first_face_up(&game.tableau[col]);
                            if s < game.tableau[col].len() {
                                game.selected_card = Some((PileType::Tableau, col, s));
                            }
                        }
                        proof {
                            assert(game@ =~= (StateView {
                                selected: column_selection(old(game)@, col as int),
                                ..old(game)@
                            }));
                        }
                    },
                }
            }
            false
        },
        InputAction::SelectWaste => {
            toggle_waste_selection(game);
            false
        },
        InputAction::DrawFromStock => {
            game.draw_from_stock();
            game.selected_card = None;
            proof {
                assert(game@ =~= (StateView {
                    selected: None::<(PileType, usize, usize)>,
                    ..draw_spec(old(game)@)
                }));
            }
            false
        },
        InputAction::AutoMove => {
            if !game.auto_move_to_foundation() {
                match game.get_hint_move() {
                    Some(h) => {
                        match h {
                            Hint::TableauToTableau { card: _, from_col, to_col } => {
                                proof {
                                    crate::hint::lemma_hint_spec_bounds(game@);
                                }
                                let s = first_face_up(&game.tableau[from_col]);
                                if s < game.tableau[from_col].len() {
                                    let from = MoveLocation {
                                        pile_type: PileType::Tableau,
                                        pile_index: from_col,
                                        card_index: s,
                                    };
                                    let to = MoveLocation {
                                        pile_type: PileType::Tableau,
                                        pile_index: to_col,
                                        card_index: game.tableau[to_col].len(),
                                    };
                                    attempt_move(game, from, to);
                                }
                            },
                            _ => {},
                        }
                    },
                    None => {},
                }
            }
            false
        },
        InputAction::Undo => {
            game.undo();
            false
        },
        InputAction::ToggleDrawCount => {
            game.toggle_draw_count();
            false
        },
        InputAction::MouseClick(x, y) => {
            let pos = convert_mouse_to_game_position(x, y, game);
            match pos {
                Some((pt, pi, ci)) => {
                    match pt {
                        PileType::Stock => {
                            game.draw_from_stock();
                            game.selected_card = None;
                            proof {
                                assert(game@ =~= (StateView {
                                    selected: None::<(PileType, usize, usize)>,
                                    ..draw_spec(old(game)@)
                                }));
                            }
                        },
                        PileType::Waste => {
                            toggle_waste_selection(game);
                        },
                        PileType::Tableau => {
                            let col = pi;
                            let row = ci;
                            match game.selected_card {
                                Some((spt, fc, fr)) => {
                                    match spt {
                                        PileType::Waste => {
                                            if game.waste.len() > 0 {
                                                let from = MoveLocation {
                                                    pile_type: PileType::Waste,
                                                    pile_index: 0,
                                                    card_index: game.waste.len() - 1,
                                                };
                                                let to = MoveLocation {
                                                    pile_type: PileType::Tableau,
                                                    pile_index: col,
                                                    card_index: game.tableau[col].len(),
                                                };
                                                attempt_move(game, from, to);
                                            }
                                        },
                                        PileType::Tableau => {
                                            if fc != col {
                                                let from = MoveLocation {
                                                    pile_type: PileType::Tableau,
                                                    pile_index: fc,
                                                    card_index: fr,
                                                };
                                                let to = MoveLocation {
                                                    pile_type: PileType::Tableau,
                                                    pile_index: col,
                                                    card_index: game.tableau[col].len(),
                                                };
                                                attempt_move(game, from, to);
                                            }
                                        },
                                        _ => {},
                                    }
                                    game.selected_card = None;
                                },
                                None => {
                                    if row < game.tableau[col].len()
                                        && game.tableau[col][row].face_up {
                                        let s = first_face_up(&game.tableau[col]);
                                        game.selected_card = Some((PileType::Tableau, col, s));
                                    }
                                    proof {
                                        assert(game@ =~= (StateView {
                                            selected: click_selection(
                                                old(game)@,
                                                col as int,
                                                row as int,
                                            ),
                                            ..old(game)@
                                        }));
                                    }
                                },
                            }
                        },
                        PileType::Foundation => {
                            let f = pi;
                            match game.selected_card {
                                Some((spt, fc, _fr)) => {
                                    match spt {
                                        PileType::Waste => {
                                            if game.waste.len() > 0 {
                                                let from = MoveLocation {
                                                    pile_type: PileType::Waste,
                                                    pile_index: 0,
                                                    card_index: game.waste.len() - 1,
                                                };
                                                let to = MoveLocation {
                                                    pile_type: PileType::Foundation,
                                                    pile_index: f,
                                                    card_index: game.foundations[f].len(),
                                                };
                                                attempt_move(game, from, to);
                                            }
                                        },
                                        PileType::Tableau => {
                                            if fc < 7 && game.tableau[fc].len() > 0 {
                                                let from = MoveLocation {
                                                    pile_type: PileType::Tableau,
                                                    pile_index: fc,
                                                    card_index: game.tableau[fc].len() - 1,
                                                };
                                                let to = MoveLocation {
                                                    pile_type: PileType::Foundation,
                                                    pile_index: f,
                                                    card_index: game.foundations[f].len(),
                                                };
                                                attempt_move(game, from, to);
                                            }
                                        },
                                        _ => {},
                                    }
                                    game.selected_card = None;
                                },
                                None => {},
                            }
                        },
                    }
                },
                None => {
                    game.selected_card = None;
                    proof {
                        assert(game@ =~= (StateView {
                            selected: None::<(PileType, usize, usize)>,
                            ..old(game)@
                        }));
                    }
                },
            }
            false
        },
        InputAction::Quit => true,
        InputAction::SelectFoundation(_) => false,
        InputAction::Hint => false,
        InputAction::MouseDrag(_, _) => false,
        InputAction::NoOp => false,
    }
}

/// Toggle the waste's top card in and out of the selection.
fn toggle_waste_selection(game: &mut GameState)
    requires
        old(game).wf(),
    ensures
        final(game).wf(),
        selection_only(*old(game), *final(game), waste_toggle_sel(*old(game))),
{
    if game.waste.len() > 0 {
        let idx = game.waste.len() - 1;
        let is_sel = match game.selected_card {
            Some((pt, pi, ci)) => pt == PileType::Waste && pi == 0 && ci == idx,
            None => false,
        };
        if is_sel {
            game.selected_card = None;
        } else {
            game.selected_card = Some((PileType::Waste, 0, idx));
        }
    }
    proof {
        assert(game@ =~= (StateView { selected: waste_toggle_sel(*old(game)), ..old(game)@ }));
    }
}

} // verus!
