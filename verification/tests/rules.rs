use neon_solitaire::card::{Card, Rank, Suit, create_standard_deck};
use neon_solitaire::game::{GameState, PileType};

fn c(suit: Suit, rank: Rank, up: bool) -> Card {
    let mut x = Card::new(suit, rank);
    if up {
        x.flip();
    }
    x
}

fn empty_game() -> GameState {
    GameState {
        tableau: vec![
            Vec::new(),
            Vec::new(),
            Vec::new(),
            Vec::new(),
            Vec::new(),
            Vec::new(),
            Vec::new(),
        ],
        stock: Vec::new(),
        waste: Vec::new(),
        foundations: vec![Vec::new(), Vec::new(), Vec::new(), Vec::new()],
        selected_card: None,
        move_count: 0,
        score: 0,
        undo_stack: Vec::new(),
        draw_count: 3,
    }
}

#[test]
fn card_colors_and_stacking() {
    let six_hearts = c(Suit::Hearts, Rank::Six, true);
    let seven_clubs = c(Suit::Clubs, Rank::Seven, true);
    let seven_diamonds = c(Suit::Diamonds, Rank::Seven, true);
    assert!(six_hearts.is_red());
    assert!(seven_clubs.is_black());
    assert!(six_hearts.can_stack_on(&seven_clubs));
    assert!(!six_hearts.can_stack_on(&seven_diamonds)); // same color
    assert!(!seven_clubs.can_stack_on(&six_hearts)); // wrong direction
}

#[test]
fn flip_toggles_orientation_only() {
    let mut card = Card::new(Suit::Spades, Rank::Nine);
    assert!(!card.face_up);
    card.flip();
    assert!(card.face_up);
    assert_eq!(card.suit, Suit::Spades);
    assert_eq!(card.rank, Rank::Nine);
    card.flip();
    assert!(!card.face_up);
}

#[test]
fn standard_deck_has_52_distinct_cards() {
    let deck = create_standard_deck();
    assert_eq!(deck.len(), 52);
    for card in &deck {
        assert!(!card.face_up);
    }
    for i in 0..52 {
        for j in 0..i {
            assert!(deck[i].suit != deck[j].suit || deck[i].rank != deck[j].rank);
        }
    }
}

#[test]
fn empty_column_takes_only_kings() {
    // Scenario: empty tableau column plus the King of Spades, face up.
    let game = empty_game();
    let king_spades = c(Suit::Spades, Rank::King, true);
    let queen_spades = c(Suit::Spades, Rank::Queen, true);
    assert!(game.is_valid_tableau_move(&king_spades, 0));
    assert!(!game.is_valid_tableau_move(&queen_spades, 0));
}

#[test]
fn nonempty_column_uses_stacking_rule() {
    let mut game = empty_game();
    game.tableau[2].push(c(Suit::Clubs, Rank::Seven, true));
    let six_hearts = c(Suit::Hearts, Rank::Six, true);
    let six_spades = c(Suit::Spades, Rank::Six, true);
    assert!(game.is_valid_tableau_move(&six_hearts, 2));
    assert!(!game.is_valid_tableau_move(&six_spades, 2)); // same color
    assert!(!game.is_valid_tableau_move(&six_hearts, 9)); // out of range
}

#[test]
fn empty_foundation_takes_only_aces() {
    // Scenario: empty foundation plus the Ace of Hearts.
    let game = empty_game();
    let ace_hearts = c(Suit::Hearts, Rank::Ace, true);
    let two_hearts = c(Suit::Hearts, Rank::Two, true);
    assert!(game.is_valid_foundation_move(&ace_hearts, 0));
    assert!(!game.is_valid_foundation_move(&two_hearts, 0));
}

#[test]
fn foundation_rejects_rank_gap() {
    // Scenario: a foundation holding the Ace of Hearts, offered the Three.
    let mut game = empty_game();
    game.foundations[1].push(c(Suit::Hearts, Rank::Ace, true));
    let three_hearts = c(Suit::Hearts, Rank::Three, true);
    let two_hearts = c(Suit::Hearts, Rank::Two, true);
    let two_spades = c(Suit::Spades, Rank::Two, true);
    assert!(!game.is_valid_foundation_move(&three_hearts, 1));
    assert!(game.is_valid_foundation_move(&two_hearts, 1));
    assert!(!game.is_valid_foundation_move(&two_spades, 1)); // wrong suit
    assert!(!game.is_valid_foundation_move(&two_hearts, 4)); // out of range
}

#[test]
fn is_won_requires_all_four_complete() {
    let mut game = empty_game();
    assert!(!game.is_won());
    let suits = [Suit::Hearts, Suit::Diamonds, Suit::Clubs, Suit::Spades];
    let ranks = [
        Rank::Ace,
        Rank::Two,
        Rank::Three,
        Rank::Four,
        Rank::Five,
        Rank::Six,
        Rank::Seven,
        Rank::Eight,
        Rank::Nine,
        Rank::Ten,
        Rank::Jack,
        Rank::Queen,
        Rank::King,
    ];
    for (f, suit) in suits.iter().enumerate() {
        for rank in ranks.iter() {
            game.foundations[f].push(c(*suit, *rank, true));
        }
    }
    assert!(game.is_won());
    game.foundations[3].pop();
    assert!(!game.is_won());
}

#[test]
fn compact_text_shows_rank_and_suit() {
    assert_eq!(c(Suit::Hearts, Rank::Ace, true).to_string_compact(), "[A♥]");
    assert_eq!(c(Suit::Spades, Rank::Ten, true).to_string_compact(), "[10♠]");
    assert_eq!(c(Suit::Clubs, Rank::Queen, true).to_string_compact(), "[Q♣]");
    assert_eq!(c(Suit::Diamonds, Rank::Seven, false).to_string_compact(), "[??]");
}

#[test]
fn fresh_deal_has_triangular_tableau() {
    // Scenario: all 52 cards correctly dealt.
    let game = GameState::new();
    assert_eq!(game.tableau.len(), 7);
    for (i, col) in game.tableau.iter().enumerate() {
        assert_eq!(col.len(), i + 1);
        for (r, card) in col.iter().enumerate() {
            assert_eq!(card.face_up, r == i);
        }
    }
    assert_eq!(game.stock.len(), 24);
    for card in &game.stock {
        assert!(!card.face_up);
    }
    assert!(game.waste.is_empty());
    for f in &game.foundations {
        assert!(f.is_empty());
    }
    assert_eq!(game.score, 0);
    assert_eq!(game.move_count, 0);
    assert_eq!(game.draw_count, 3);
    assert!(game.selected_card.is_none());

    // the shuffled deal still holds 52 distinct cards
    let mut seen: Vec<(Suit, Rank)> = Vec::new();
    for col in &game.tableau {
        for card in col {
            seen.push((card.suit, card.rank));
        }
    }
    for card in &game.stock {
        seen.push((card.suit, card.rank));
    }
    assert_eq!(seen.len(), 52);
    for i in 0..52 {
        for j in 0..i {
            assert!(seen[i] != seen[j]);
        }
    }
}

#[test]
fn toggle_draw_count_flips_between_one_and_three() {
    let mut game = empty_game();
    assert_eq!(game.draw_count, 3);
    game.toggle_draw_count();
    assert_eq!(game.draw_count, 1);
    game.toggle_draw_count();
    assert_eq!(game.draw_count, 3);
    assert_eq!(game.move_count, 0);
    assert!(game.undo_stack.is_empty());
}

#[test]
fn pile_type_is_plain_data() {
    assert_eq!(PileType::Tableau, PileType::Tableau);
    assert!(PileType::Stock != PileType::Waste);
}

#[test]
fn cards_are_conserved_across_operations() {
    let mut game = GameState::new();
    for _ in 0..5 {
        game.draw_from_stock();
    }
    game.auto_move_to_foundation();
    neon_solitaire::moves::auto_complete(&mut game);
    game.undo();
    game.draw_from_stock();

    let mut seen: Vec<(Suit, Rank)> = Vec::new();
    for col in &game.tableau {
        for card in col {
            seen.push((card.suit, card.rank));
        }
    }
    for card in game.stock.iter().chain(game.waste.iter()) {
        seen.push((card.suit, card.rank));
    }
    for f in &game.foundations {
        for card in f {
            seen.push((card.suit, card.rank));
        }
    }
    assert_eq!(seen.len(), 52);
    for i in 0..52 {
        for j in 0..i {
            assert!(seen[i] != seen[j]);
        }
    }
}

#[test]
fn deal_follows_the_deck_order() {
    // dealt from the unshuffled standard deck, every position is forced
    let game = GameState::deal(create_standard_deck());
    // column 0 takes the first card: the Ace of Hearts, face up
    assert_eq!(game.tableau[0][0].suit, Suit::Hearts);
    assert_eq!(game.tableau[0][0].rank, Rank::Ace);
    assert!(game.tableau[0][0].face_up);
    // column 1 takes the next two: 2♥ face down, 3♥ face up
    assert_eq!(game.tableau[1][0].rank, Rank::Two);
    assert!(!game.tableau[1][0].face_up);
    assert_eq!(game.tableau[1][1].rank, Rank::Three);
    assert!(game.tableau[1][1].face_up);
    // column 6 ends with the 28th card dealt: the 2 of Clubs
    assert_eq!(game.tableau[6][6].suit, Suit::Clubs);
    assert_eq!(game.tableau[6][6].rank, Rank::Two);
    // the stock keeps the rest in order: 3♣ first, K♠ last
    assert_eq!(game.stock[0].suit, Suit::Clubs);
    assert_eq!(game.stock[0].rank, Rank::Three);
    assert_eq!(game.stock[23].suit, Suit::Spades);
    assert_eq!(game.stock[23].rank, Rank::King);
}
