use neon_solitaire::card::{Card, Rank, Suit};
use neon_solitaire::game::{GameState, PileType};
use neon_solitaire::input::{InputAction, convert_mouse_to_game_position, handle_game_action};

fn c(suit: Suit, rank: Rank, up: bool) -> Card {
    let mut x = Card::new(suit, rank);
    if up {
        x.flip();
    }
    x
}

fn empty_game() -> GameState {
    GameState {
        tableau: vec![
            Vec::new(),
            Vec::new(),
            Vec::new(),
            Vec::new(),
            Vec::new(),
            Vec::new(),
            Vec::new(),
        ],
        stock: Vec::new(),
        waste: Vec::new(),
        foundations: vec![Vec::new(), Vec::new(), Vec::new(), Vec::new()],
        selected_card: None,
        move_count: 0,
        score: 0,
        undo_stack: Vec::new(),
        draw_count: 3,
    }
}

#[test]
fn select_column_picks_first_face_up_card() {
    let mut game = empty_game();
    game.tableau[2] = vec![
        c(Suit::Clubs, Rank::Nine, false),
        c(Suit::Hearts, Rank::Eight, true),
        c(Suit::Spades, Rank::Seven, true),
    ];
    let quit = handle_game_action(&mut game, InputAction::SelectColumn(2));
    assert!(!quit);
    assert_eq!(game.selected_card, Some((PileType::Tableau, 2, 1)));
    assert_eq!(game.move_count, 0);
}

#[test]
fn select_then_move_between_columns() {
    let mut game = empty_game();
    game.tableau[0] = vec![c(Suit::Hearts, Rank::Six, true)];
    game.tableau[1] = vec![c(Suit::Clubs, Rank::Seven, true)];
    handle_game_action(&mut game, InputAction::SelectColumn(0));
    assert_eq!(game.selected_card, Some((PileType::Tableau, 0, 0)));
    handle_game_action(&mut game, InputAction::SelectColumn(1));
    assert!(game.selected_card.is_none());
    assert!(game.tableau[0].is_empty());
    assert_eq!(game.tableau[1].len(), 2);
    assert_eq!(game.score, 5);
    assert_eq!(game.move_count, 1);
}

#[test]
fn invalid_selected_move_only_deselects() {
    let mut game = empty_game();
    game.tableau[0] = vec![c(Suit::Hearts, Rank::Six, true)];
    game.tableau[1] = vec![c(Suit::Diamonds, Rank::Nine, true)];
    handle_game_action(&mut game, InputAction::SelectColumn(0));
    handle_game_action(&mut game, InputAction::SelectColumn(1));
    assert!(game.selected_card.is_none());
    assert_eq!(game.tableau[0].len(), 1);
    assert_eq!(game.tableau[1].len(), 1);
    assert_eq!(game.score, 0);
    assert_eq!(game.move_count, 0);
    assert!(game.undo_stack.is_empty());
}

#[test]
fn out_of_range_column_is_ignored() {
    let mut game = empty_game();
    game.tableau[0] = vec![c(Suit::Hearts, Rank::Six, true)];
    let quit = handle_game_action(&mut game, InputAction::SelectColumn(9));
    assert!(!quit);
    assert!(game.selected_card.is_none());
    assert_eq!(game.move_count, 0);
}

#[test]
fn waste_selection_toggles() {
    let mut game = empty_game();
    game.waste = vec![c(Suit::Clubs, Rank::Nine, true)];
    handle_game_action(&mut game, InputAction::SelectWaste);
    assert_eq!(game.selected_card, Some((PileType::Waste, 0, 0)));
    handle_game_action(&mut game, InputAction::SelectWaste);
    assert!(game.selected_card.is_none());
}

#[test]
fn waste_to_column_via_selection() {
    let mut game = empty_game();
    game.waste = vec![c(Suit::Spades, Rank::Six, true)];
    game.tableau[4] = vec![c(Suit::Hearts, Rank::Seven, true)];
    handle_game_action(&mut game, InputAction::SelectWaste);
    handle_game_action(&mut game, InputAction::SelectColumn(4));
    assert!(game.waste.is_empty());
    assert_eq!(game.tableau[4].len(), 2);
    assert_eq!(game.score, 5);
    assert!(game.selected_card.is_none());
}

#[test]
fn draw_action_draws_and_deselects() {
    let mut game = empty_game();
    game.stock = vec![c(Suit::Clubs, Rank::Two, false)];
    game.selected_card = Some((PileType::Tableau, 0, 0));
    handle_game_action(&mut game, InputAction::DrawFromStock);
    assert_eq!(game.waste.len(), 1);
    assert!(game.selected_card.is_none());
    assert_eq!(game.move_count, 1);
}

#[test]
fn undo_action_reverts() {
    let mut game = empty_game();
    game.stock = vec![c(Suit::Clubs, Rank::Two, false)];
    handle_game_action(&mut game, InputAction::DrawFromStock);
    handle_game_action(&mut game, InputAction::Undo);
    assert_eq!(game.stock.len(), 1);
    assert!(game.waste.is_empty());
    assert_eq!(game.move_count, 0);
}

#[test]
fn toggle_action_flips_draw_count() {
    let mut game = empty_game();
    handle_game_action(&mut game, InputAction::ToggleDrawCount);
    assert_eq!(game.draw_count, 1);
}

#[test]
fn quit_action_reports_quit() {
    let mut game = empty_game();
    assert!(handle_game_action(&mut game, InputAction::Quit));
    assert!(!handle_game_action(&mut game, InputAction::Hint));
    assert!(!handle_game_action(&mut game, InputAction::NoOp));
}

#[test]
fn automove_action_sends_ace_to_foundation() {
    let mut game = empty_game();
    game.tableau[0] = vec![c(Suit::Hearts, Rank::Ace, true)];
    handle_game_action(&mut game, InputAction::AutoMove);
    assert_eq!(game.foundations.iter().map(|f| f.len()).sum::<usize>(), 1);
    assert_eq!(game.score, 10);
}

#[test]
fn automove_action_falls_back_to_hinted_run() {
    let mut game = empty_game();
    game.tableau[0] = vec![c(Suit::Hearts, Rank::Six, true)];
    game.tableau[1] = vec![c(Suit::Clubs, Rank::Seven, true)];
    handle_game_action(&mut game, InputAction::AutoMove);
    assert!(game.tableau[0].is_empty());
    assert_eq!(game.tableau[1].len(), 2);
    assert_eq!(game.score, 5);
}

#[test]
fn mouse_map_addresses_board_regions() {
    let mut game = empty_game();
    assert_eq!(
        convert_mouse_to_game_position(10, 6, &game),
        Some((PileType::Stock, 0, 0))
    );
    // the waste region maps only while the waste holds cards
    assert_eq!(convert_mouse_to_game_position(20, 6, &game), None);
    game.waste = vec![c(Suit::Clubs, Rank::Nine, true)];
    assert_eq!(
        convert_mouse_to_game_position(20, 6, &game),
        Some((PileType::Waste, 0, 0))
    );
    assert_eq!(
        convert_mouse_to_game_position(53, 6, &game),
        Some((PileType::Foundation, 0, 0))
    );
    assert_eq!(
        convert_mouse_to_game_position(70, 6, &game),
        Some((PileType::Foundation, 3, 0))
    );
    // tableau clicks: column from x, row from y
    game.tableau[1] = vec![c(Suit::Hearts, Rank::Five, true)];
    assert_eq!(
        convert_mouse_to_game_position(8, 10, &game),
        Some((PileType::Tableau, 1, 0))
    );
    // clicking past a column's cards addresses its end
    assert_eq!(
        convert_mouse_to_game_position(8, 15, &game),
        Some((PileType::Tableau, 1, 1))
    );
    assert_eq!(convert_mouse_to_game_position(0, 0, &game), None);
}

#[test]
fn mouse_click_on_stock_draws() {
    let mut game = empty_game();
    game.stock = vec![c(Suit::Clubs, Rank::Two, false)];
    handle_game_action(&mut game, InputAction::MouseClick(10, 6));
    assert_eq!(game.waste.len(), 1);
    assert_eq!(game.move_count, 1);
}

#[test]
fn mouse_click_selects_and_moves() {
    let mut game = empty_game();
    game.tableau[0] = vec![c(Suit::Hearts, Rank::Six, true)];
    game.tableau[1] = vec![c(Suit::Clubs, Rank::Seven, true)];
    // click the 6♥ (column 0, row 0), then column 1
    handle_game_action(&mut game, InputAction::MouseClick(2, 10));
    assert_eq!(game.selected_card, Some((PileType::Tableau, 0, 0)));
    handle_game_action(&mut game, InputAction::MouseClick(8, 10));
    assert!(game.tableau[0].is_empty());
    assert_eq!(game.tableau[1].len(), 2);
    assert!(game.selected_card.is_none());
}

#[test]
fn mouse_click_to_foundation() {
    let mut game = empty_game();
    game.tableau[0] = vec![c(Suit::Hearts, Rank::Ace, true)];
    handle_game_action(&mut game, InputAction::MouseClick(2, 10));
    assert!(game.selected_card.is_some());
    handle_game_action(&mut game, InputAction::MouseClick(53, 6));
    assert!(game.tableau[0].is_empty());
    assert_eq!(game.foundations[0].len(), 1);
    assert_eq!(game.score, 10);
    assert!(game.selected_card.is_none());
}

#[test]
fn mouse_click_outside_deselects() {
    let mut game = empty_game();
    game.selected_card = Some((PileType::Tableau, 0, 0));
    handle_game_action(&mut game, InputAction::MouseClick(0, 0));
    assert!(game.selected_card.is_none());
    assert_eq!(game.move_count, 0);
}
