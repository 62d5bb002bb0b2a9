use neon_solitaire::card::{Card, Rank, Suit};
use neon_solitaire::game::{GameState, PileType};
use neon_solitaire::moves::{Move, MoveLocation, attempt_move, auto_complete, find_best_move, find_valid_moves};

fn c(suit: Suit, rank: Rank, up: bool) -> Card {
    let mut x = Card::new(suit, rank);
    if up {
        x.flip();
    }
    x
}

fn empty_game() -> GameState {
    GameState {
        tableau: vec![
            Vec::new(),
            Vec::new(),
            Vec::new(),
            Vec::new(),
            Vec::new(),
            Vec::new(),
            Vec::new(),
        ],
        stock: Vec::new(),
        waste: Vec::new(),
        foundations: vec![Vec::new(), Vec::new(), Vec::new(), Vec::new()],
        selected_card: None,
        move_count: 0,
        score: 0,
        undo_stack: Vec::new(),
        draw_count: 3,
    }
}

fn loc(pile_type: PileType, pile_index: usize, card_index: usize) -> MoveLocation {
    MoveLocation { pile_type, pile_index, card_index }
}

#[test]
fn draw_three_moves_three_cards_face_up() {
    let mut game = empty_game();
    let a = c(Suit::Clubs, Rank::Two, false);
    let b = c(Suit::Clubs, Rank::Three, false);
    let d = c(Suit::Clubs, Rank::Four, false);
    let e = c(Suit::Clubs, Rank::Five, false);
    game.stock = vec![a, b, d, e];
    game.draw_from_stock();
    assert_eq!(game.stock.len(), 1);
    assert_eq!(game.waste.len(), 3);
    // the last card popped from the stock becomes the new waste top
    assert_eq!(game.waste[0].rank, Rank::Five);
    assert_eq!(game.waste[1].rank, Rank::Four);
    assert_eq!(game.waste[2].rank, Rank::Three);
    for card in &game.waste {
        assert!(card.face_up);
    }
    assert_eq!(game.move_count, 1);
    assert_eq!(game.undo_stack.len(), 1);
}

#[test]
fn draw_one_when_toggled() {
    let mut game = empty_game();
    game.draw_count = 1;
    game.stock = vec![c(Suit::Hearts, Rank::Two, false), c(Suit::Hearts, Rank::Three, false)];
    game.draw_from_stock();
    assert_eq!(game.stock.len(), 1);
    assert_eq!(game.waste.len(), 1);
    assert_eq!(game.waste[0].rank, Rank::Three);
}

#[test]
fn recycle_returns_waste_reversed_face_down() {
    // Scenario: stock empty, waste holds five face-up cards.
    let mut game = empty_game();
    let ranks = [Rank::Two, Rank::Three, Rank::Four, Rank::Five, Rank::Six];
    for r in ranks.iter() {
        game.waste.push(c(Suit::Diamonds, *r, true));
    }
    game.score = 30;
    game.draw_from_stock();
    assert!(game.waste.is_empty());
    assert_eq!(game.stock.len(), 5);
    // former waste bottom (the Two) is the new stock top
    assert_eq!(game.stock[4].rank, Rank::Two);
    assert_eq!(game.stock[0].rank, Rank::Six);
    for card in &game.stock {
        assert!(!card.face_up);
    }
    assert_eq!(game.score, 10); // 30 - 20
    assert_eq!(game.move_count, 1);
}

#[test]
fn recycle_penalty_floors_at_zero() {
    let mut game = empty_game();
    game.waste.push(c(Suit::Diamonds, Rank::Nine, true));
    game.score = 10;
    game.draw_from_stock();
    assert_eq!(game.score, 0);
}

#[test]
fn run_move_relocates_in_order_and_flips() {
    // Scenario: column [5♣ face-down, 6♥ face-up, 5♠ face-up], moved onto
    // a 7♣ top elsewhere.
    let mut game = empty_game();
    game.tableau[0] = vec![
        c(Suit::Clubs, Rank::Five, false),
        c(Suit::Hearts, Rank::Six, true),
        c(Suit::Spades, Rank::Five, true),
    ];
    game.tableau[1] = vec![c(Suit::Clubs, Rank::Seven, true)];
    let moved = attempt_move(&mut game, loc(PileType::Tableau, 0, 1), loc(PileType::Tableau, 1, 1));
    assert!(moved);
    assert_eq!(game.tableau[1].len(), 3);
    assert_eq!(game.tableau[1][1].rank, Rank::Six);
    assert_eq!(game.tableau[1][1].suit, Suit::Hearts);
    assert_eq!(game.tableau[1][2].rank, Rank::Five);
    assert_eq!(game.tableau[1][2].suit, Suit::Spades);
    // the uncovered 5♣ flipped face up
    assert_eq!(game.tableau[0].len(), 1);
    assert!(game.tableau[0][0].face_up);
    // +5 for the move, +5 for the flip
    assert_eq!(game.score, 10);
    assert_eq!(game.move_count, 1);
    assert_eq!(game.undo_stack.len(), 1);
}

#[test]
fn illegal_move_changes_nothing() {
    // Idempotence of illegality: an invalid move never mutates any pile,
    // score or counter, and never pushes an undo snapshot.
    let mut game = empty_game();
    game.tableau[0] = vec![c(Suit::Spades, Rank::Five, true)];
    game.tableau[1] = vec![c(Suit::Diamonds, Rank::Nine, true)];
    game.score = 15;
    let moved = attempt_move(&mut game, loc(PileType::Tableau, 0, 0), loc(PileType::Tableau, 1, 1));
    assert!(!moved);
    assert_eq!(game.tableau[0].len(), 1);
    assert_eq!(game.tableau[1].len(), 1);
    assert_eq!(game.score, 15);
    assert_eq!(game.move_count, 0);
    assert!(game.undo_stack.is_empty());
    // out-of-range indices are just as illegal, with no effect
    let moved = attempt_move(&mut game, loc(PileType::Tableau, 9, 0), loc(PileType::Tableau, 1, 1));
    assert!(!moved);
    let moved = attempt_move(&mut game, loc(PileType::Waste, 0, 0), loc(PileType::Foundation, 7, 0));
    assert!(!moved);
    assert_eq!(game.move_count, 0);
    assert!(game.undo_stack.is_empty());
}

#[test]
fn moving_face_down_run_is_illegal() {
    let mut game = empty_game();
    game.tableau[0] = vec![
        c(Suit::Clubs, Rank::Five, false),
        c(Suit::Hearts, Rank::Four, true),
    ];
    game.tableau[1] = vec![c(Suit::Hearts, Rank::Six, true)];
    // starting the run at the face-down card is not allowed
    let moved = attempt_move(&mut game, loc(PileType::Tableau, 0, 0), loc(PileType::Tableau, 1, 1));
    assert!(!moved);
    assert_eq!(game.tableau[0].len(), 2);
}

#[test]
fn foundation_takes_single_cards_only() {
    let mut game = empty_game();
    game.tableau[0] = vec![
        c(Suit::Hearts, Rank::Two, true),
        c(Suit::Spades, Rank::Ace, true),
    ];
    game.foundations[0].push(c(Suit::Hearts, Rank::Ace, true));
    // a two-card run cannot go to a foundation
    let moved = attempt_move(
        &mut game,
        loc(PileType::Tableau, 0, 0),
        loc(PileType::Foundation, 0, 1),
    );
    assert!(!moved);
    // the single top card can, when it fits
    game.foundations[1] = Vec::new();
    let moved = attempt_move(
        &mut game,
        loc(PileType::Tableau, 0, 1),
        loc(PileType::Foundation, 1, 0),
    );
    assert!(moved);
    assert_eq!(game.foundations[1].len(), 1);
    assert_eq!(game.score, 10);
}

#[test]
fn save_then_undo_restores_playfield() {
    // Round-trip: a snapshot followed immediately by undo restores the
    // exact prior piles, score, move count and selection.
    let mut game = empty_game();
    game.tableau[0] = vec![c(Suit::Hearts, Rank::Six, true)];
    game.waste = vec![c(Suit::Clubs, Rank::Nine, true)];
    game.score = 25;
    game.move_count = 4;
    game.selected_card = Some((PileType::Tableau, 0, 0));
    let before_tableau = game.tableau.clone();
    let before_waste = game.waste.clone();
    game.save_undo_state();
    assert!(game.undo());
    assert_eq!(game.tableau, before_tableau);
    assert_eq!(game.waste, before_waste);
    assert_eq!(game.score, 25);
    assert_eq!(game.move_count, 4);
    assert_eq!(game.selected_card, Some((PileType::Tableau, 0, 0)));
}

#[test]
fn undo_reverts_a_draw() {
    let mut game = empty_game();
    game.stock = vec![
        c(Suit::Clubs, Rank::Two, false),
        c(Suit::Clubs, Rank::Three, false),
    ];
    game.draw_from_stock();
    assert_eq!(game.waste.len(), 2);
    assert!(game.undo());
    assert_eq!(game.stock.len(), 2);
    assert!(game.waste.is_empty());
    assert_eq!(game.move_count, 0);
}

#[test]
fn undo_with_empty_history_reports_false() {
    let mut game = empty_game();
    game.score = 7;
    assert!(!game.undo());
    assert_eq!(game.score, 7);
    assert_eq!(game.move_count, 0);
}

#[test]
fn undo_history_is_capped_at_100() {
    let mut game = empty_game();
    for i in 0..105u32 {
        game.score = i as i32;
        game.save_undo_state();
    }
    assert_eq!(game.undo_stack.len(), 100);
    // the most recent snapshots survive; the oldest were evicted
    assert!(game.undo());
    assert_eq!(game.score, 104);
    assert_eq!(game.undo_stack.len(), 99);
    assert_eq!(game.undo_stack[0].score, 5);
}

#[test]
fn auto_move_prefers_waste_then_tableau() {
    let mut game = empty_game();
    game.waste = vec![c(Suit::Hearts, Rank::Ace, true)];
    game.tableau[0] = vec![c(Suit::Spades, Rank::Ace, true)];
    assert!(game.auto_move_to_foundation());
    // the waste ace went first
    assert!(game.waste.is_empty());
    assert_eq!(game.tableau[0].len(), 1);
    assert_eq!(game.score, 10);
    assert_eq!(game.move_count, 1);
    // now the tableau ace follows
    assert!(game.auto_move_to_foundation());
    assert!(game.tableau[0].is_empty());
    assert_eq!(game.score, 20);
    // nothing left to move
    assert!(!game.auto_move_to_foundation());
    assert_eq!(game.move_count, 2);
}

#[test]
fn auto_complete_finishes_a_won_game() {
    let mut game = empty_game();
    let suits = [Suit::Hearts, Suit::Diamonds, Suit::Clubs, Suit::Spades];
    let ranks = [
        Rank::Ace,
        Rank::Two,
        Rank::Three,
        Rank::Four,
        Rank::Five,
        Rank::Six,
        Rank::Seven,
        Rank::Eight,
        Rank::Nine,
        Rank::Ten,
        Rank::Jack,
        Rank::Queen,
    ];
    for (f, suit) in suits.iter().enumerate() {
        for rank in ranks.iter() {
            game.foundations[f].push(c(*suit, *rank, true));
        }
    }
    game.tableau[0] = vec![c(Suit::Hearts, Rank::King, true)];
    game.tableau[1] = vec![c(Suit::Diamonds, Rank::King, true)];
    game.tableau[2] = vec![c(Suit::Clubs, Rank::King, true)];
    game.tableau[3] = vec![c(Suit::Spades, Rank::King, true)];
    assert!(auto_complete(&mut game));
    assert!(game.is_won());
    assert_eq!(game.score, 40);
    assert_eq!(game.move_count, 4);
    // a second invocation finds nothing to do
    assert!(!auto_complete(&mut game));
    assert_eq!(game.move_count, 4);
}

#[test]
fn auto_complete_credits_flip_bonus() {
    let mut game = empty_game();
    game.foundations[0].push(c(Suit::Hearts, Rank::Ace, true));
    game.tableau[0] = vec![
        c(Suit::Spades, Rank::Nine, false),
        c(Suit::Hearts, Rank::Two, true),
    ];
    assert!(auto_complete(&mut game));
    assert_eq!(game.foundations[0].len(), 2);
    assert!(game.tableau[0][0].face_up);
    // +10 for the foundation move, +5 for the uncovered card
    assert_eq!(game.score, 15);
}

#[test]
fn find_valid_moves_enumerates_in_canonical_order() {
    let mut game = empty_game();
    game.waste = vec![c(Suit::Spades, Rank::Six, true)];
    game.tableau[0] = vec![c(Suit::Hearts, Rank::Seven, true)];
    game.tableau[1] = vec![c(Suit::Diamonds, Rank::King, true)];
    let moves = find_valid_moves(&game);
    // waste 6♠ onto the 7♥, then the K♦ onto each empty column
    assert_eq!(moves.len(), 6);
    assert_eq!(moves[0].from.pile_type, PileType::Waste);
    assert_eq!(moves[0].to.pile_index, 0);
    for (k, mv) in moves.iter().enumerate().skip(1) {
        assert_eq!(mv.from.pile_type, PileType::Tableau);
        assert_eq!(mv.from.pile_index, 1);
        assert_eq!(mv.to.pile_type, PileType::Tableau);
        assert_eq!(mv.to.pile_index, k + 1);
        assert_eq!(mv.cards.len(), 1);
        assert_eq!(mv.cards[0].rank, Rank::King);
    }
}

#[test]
fn find_best_move_prefers_foundation() {
    let mut game = empty_game();
    game.waste = vec![c(Suit::Spades, Rank::Six, true)];
    game.tableau[0] = vec![c(Suit::Hearts, Rank::Seven, true)];
    game.tableau[1] = vec![c(Suit::Hearts, Rank::Ace, true)];
    let best = find_best_move(&game).expect("a move exists");
    assert_eq!(best.to.pile_type, PileType::Foundation);
    assert_eq!(best.from.pile_type, PileType::Tableau);
    assert_eq!(best.from.pile_index, 1);
}

#[test]
fn find_best_move_prefers_reveals_over_earlier_moves() {
    let mut game = empty_game();
    game.tableau[1] = vec![c(Suit::Diamonds, Rank::King, true)];
    game.tableau[2] = vec![
        c(Suit::Clubs, Rank::Nine, false),
        c(Suit::Hearts, Rank::Eight, true),
    ];
    game.tableau[3] = vec![c(Suit::Spades, Rank::Nine, true)];
    let best = find_best_move(&game).expect("a move exists");
    // the 8♥ onto the 9♠ uncovers a card and wins over the King moves
    // that enumerate earlier
    assert_eq!(best.from.pile_index, 2);
    assert_eq!(best.to.pile_index, 3);
}

#[test]
fn find_best_move_none_when_stuck() {
    let game = empty_game();
    assert!(find_best_move(&game).is_none());
}

#[test]
fn execute_records_score_and_flip() {
    let mut game = empty_game();
    game.tableau[0] = vec![
        c(Suit::Clubs, Rank::Five, false),
        c(Suit::Hearts, Rank::Six, true),
    ];
    game.tableau[1] = vec![c(Suit::Clubs, Rank::Seven, true)];
    let mut mv = Move::new(
        loc(PileType::Tableau, 0, 1),
        loc(PileType::Tableau, 1, 1),
        vec![c(Suit::Hearts, Rank::Six, true)],
    );
    assert!(mv.is_valid(&game));
    assert!(mv.execute(&mut game));
    assert_eq!(mv.score_change, 10);
    let (col, card) = mv.flipped_card.expect("a card was uncovered");
    assert_eq!(col, 0);
    assert_eq!(card.rank, Rank::Five);
    // re-validating against the mutated state fails now
    assert!(!mv.is_valid(&game));
}

#[test]
fn foundation_card_can_return_to_tableau() {
    let mut game = empty_game();
    game.foundations[0] = vec![
        c(Suit::Spades, Rank::Ace, true),
        c(Suit::Spades, Rank::Two, true),
    ];
    game.tableau[0] = vec![c(Suit::Hearts, Rank::Three, true)];
    let moved = attempt_move(
        &mut game,
        loc(PileType::Foundation, 0, 1),
        loc(PileType::Tableau, 0, 1),
    );
    assert!(moved);
    assert_eq!(game.foundations[0].len(), 1);
    assert_eq!(game.tableau[0].len(), 2);
    assert_eq!(game.tableau[0][1].rank, Rank::Two);
    assert_eq!(game.score, 5);
}

#[test]
fn draw_takes_at_most_the_stock() {
    let mut game = empty_game();
    game.stock = vec![
        c(Suit::Hearts, Rank::Two, false),
        c(Suit::Hearts, Rank::Three, false),
    ];
    game.draw_from_stock(); // draw mode 3, but only 2 cards remain
    assert!(game.stock.is_empty());
    assert_eq!(game.waste.len(), 2);
    assert_eq!(game.waste[1].rank, Rank::Two);
}
