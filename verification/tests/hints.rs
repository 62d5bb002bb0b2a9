use neon_solitaire::card::{Card, Rank, Suit};
use neon_solitaire::game::GameState;
use neon_solitaire::hint::Hint;

fn c(suit: Suit, rank: Rank, up: bool) -> Card {
    let mut x = Card::new(suit, rank);
    if up {
        x.flip();
    }
    x
}

fn empty_game() -> GameState {
    GameState {
        tableau: vec![
            Vec::new(),
            Vec::new(),
            Vec::new(),
            Vec::new(),
            Vec::new(),
            Vec::new(),
            Vec::new(),
        ],
        stock: Vec::new(),
        waste: Vec::new(),
        foundations: vec![Vec::new(), Vec::new(), Vec::new(), Vec::new()],
        selected_card: None,
        move_count: 0,
        score: 0,
        undo_stack: Vec::new(),
        draw_count: 3,
    }
}

#[test]
fn hint_prefers_foundation_moves() {
    let mut game = empty_game();
    // a tableau-to-tableau move also exists, but the ace wins
    game.tableau[0] = vec![c(Suit::Hearts, Rank::Seven, true)];
    game.tableau[1] = vec![c(Suit::Spades, Rank::Six, true)];
    game.tableau[2] = vec![c(Suit::Hearts, Rank::Ace, true)];
    match game.get_hint_move() {
        Some(Hint::TableauToFoundation { card, from_col }) => {
            assert_eq!(card.rank, Rank::Ace);
            assert_eq!(from_col, 2);
        }
        other => panic!("unexpected hint {:?}", other),
    }
    assert_eq!(game.get_hint().unwrap(), "Move [A♥] from column 3 to foundation");
}

#[test]
fn hint_suggests_column_move() {
    let mut game = empty_game();
    game.tableau[1] = vec![c(Suit::Hearts, Rank::Seven, true)];
    game.tableau[4] = vec![
        c(Suit::Clubs, Rank::Nine, false),
        c(Suit::Spades, Rank::Six, true),
    ];
    match game.get_hint_move() {
        Some(Hint::TableauToTableau { card, from_col, to_col }) => {
            assert_eq!(card.rank, Rank::Six);
            assert_eq!(from_col, 4);
            assert_eq!(to_col, 1);
        }
        other => panic!("unexpected hint {:?}", other),
    }
    assert_eq!(game.get_hint().unwrap(), "Move [6♠] from column 5 to column 2");
}

#[test]
fn hint_suggests_waste_card() {
    let mut game = empty_game();
    game.tableau[3] = vec![c(Suit::Diamonds, Rank::Ten, true)];
    game.waste = vec![c(Suit::Clubs, Rank::Nine, true)];
    match game.get_hint_move() {
        Some(Hint::WasteToTableau { card, to_col }) => {
            assert_eq!(card.rank, Rank::Nine);
            assert_eq!(to_col, 3);
        }
        other => panic!("unexpected hint {:?}", other),
    }
    assert_eq!(game.get_hint().unwrap(), "Move [9♣] from waste to column 4");
}

#[test]
fn hint_suggests_drawing_when_nothing_else() {
    let mut game = empty_game();
    game.stock = vec![c(Suit::Clubs, Rank::Two, false)];
    assert!(matches!(game.get_hint_move(), Some(Hint::DrawFromStock)));
    assert_eq!(game.get_hint().unwrap(), "Draw from stock");
}

#[test]
fn hint_none_when_stuck() {
    // no legal move, stock and waste both empty: the engine is stuck
    let mut game = empty_game();
    game.tableau[0] = vec![c(Suit::Hearts, Rank::Four, true)];
    assert!(game.get_hint_move().is_none());
    assert!(game.get_hint().is_none());
}

#[test]
fn hint_scans_columns_left_to_right() {
    let mut game = empty_game();
    game.tableau[2] = vec![c(Suit::Hearts, Rank::Ace, true)];
    game.tableau[5] = vec![c(Suit::Spades, Rank::Ace, true)];
    match game.get_hint_move() {
        Some(Hint::TableauToFoundation { card, from_col }) => {
            assert_eq!(from_col, 2);
            assert_eq!(card.suit, Suit::Hearts);
        }
        other => panic!("unexpected hint {:?}", other),
    }
}

#[test]
fn hint_moves_run_from_lowest_face_up_card() {
    let mut game = empty_game();
    // the face-up run starts at the 8♥; the hint names that card
    game.tableau[0] = vec![
        c(Suit::Clubs, Rank::Four, false),
        c(Suit::Hearts, Rank::Eight, true),
        c(Suit::Spades, Rank::Seven, true),
    ];
    game.tableau[6] = vec![c(Suit::Spades, Rank::Nine, true)];
    match game.get_hint_move() {
        Some(Hint::TableauToTableau { card, from_col, to_col }) => {
            assert_eq!(card.rank, Rank::Eight);
            assert_eq!(from_col, 0);
            assert_eq!(to_col, 6);
        }
        other => panic!("unexpected hint {:?}", other),
    }
}

#[test]
fn pile_reference_in_hint_is_one_based() {
    let mut game = empty_game();
    game.tableau[6] = vec![c(Suit::Diamonds, Rank::Ace, true)];
    assert_eq!(game.get_hint().unwrap(), "Move [A♦] from column 7 to foundation");
}
