//! The card model: suits, ranks, orientation, the stacking rule, the
//! standard 52-card deck, and the card-identity multisets used to state
//! that no card is ever duplicated or lost.

use vstd::prelude::*;
use vstd::string::*;
use vstd::multiset::Multiset;
use rand::seq::SliceRandom;

verus! {

/// The four suits of a standard deck.
#[derive(Clone, Copy, PartialEq, Eq, Structural, Debug, Hash)]
pub enum Suit {
    Hearts,
    Diamonds,
    Clubs,
    Spades,
}

/// Card ranks from Ace (lowest, value 1) to King (highest, value 13).
#[derive(Clone, Copy, PartialEq, Eq, Structural, Debug, Hash)]
pub enum Rank {
    Ace,
    Two,
    Three,
    Four,
    Five,
    Six,
    Seven,
    Eight,
    Nine,
    Ten,
    Jack,
    Queen,
    King,
}

impl Rank {
    /// The numeric value of a rank: Ace is 1, King is 13.
    pub open spec fn value_spec(self) -> int {
        match self {
            Rank::Ace => 1,
            Rank::Two => 2,
            Rank::Three => 3,
            Rank::Four => 4,
            Rank::Five => 5,
            Rank::Six => 6,
            Rank::Seven => 7,
            Rank::Eight => 8,
            Rank::Nine => 9,
            Rank::Ten => 10,
            Rank::Jack => 11,
            Rank::Queen => 12,
            Rank::King => 13,
        }
    }

    /// The numeric value of a rank, for rank arithmetic.
    pub fn value(self) -> (v: u8)
        ensures
            v as int == self.value_spec(),
            1 <= v <= 13,
    {
        match self {
            Rank::Ace => 1,
            Rank::Two => 2,
            Rank::Three => 3,
            Rank::Four => 4,
            Rank::Five => 5,
            Rank::Six => 6,
            Rank::Seven => 7,
            Rank::Eight => 8,
            Rank::Nine => 9,
            Rank::Ten => 10,
            Rank::Jack => 11,
            Rank::Queen => 12,
            Rank::King => 13,
        }
    }
}

/// A playing card: an immutable suit/rank identity plus a mutable orientation.
#[derive(Clone, Copy, PartialEq, Eq, Structural, Debug)]
pub struct Card {
    pub suit: Suit,
    pub rank: Rank,
    pub face_up: bool,
}

impl Card {
    /// Whether the card is red (Hearts or Diamonds).
    pub open spec fn is_red_spec(self) -> bool {
        self.suit == Suit::Hearts || self.suit == Suit::Diamonds
    }

    /// The tableau stacking rule: `self` may go on top of `other` exactly
    /// when the colors differ and `self` is one rank below `other`.
    pub open spec fn can_stack_on_spec(self, other: Card) -> bool {
        self.is_red_spec() != other.is_red_spec()
            && self.rank.value_spec() == other.rank.value_spec() - 1
    }

    /// A new card is dealt face down.
    pub fn new(suit: Suit, rank: Rank) -> (c: Card)
        ensures
            c == (Card { suit, rank, face_up: false }),
    {
        Card { suit, rank, face_up: false }
    }

    /// Toggle the orientation; the suit and rank never change.
    pub fn flip(&mut self)
        ensures
            *final(self) == (Card { face_up: !old(self).face_up, ..*old(self) }),
    {
        self.face_up = !self.face_up;
    }

    pub fn is_red(&self) -> (r: bool)
        ensures
            r == self.is_red_spec(),
    {
        matches!(self.suit, Suit::Hearts | Suit::Diamonds)
    }

    pub fn is_black(&self) -> (r: bool)
        ensures
            r == !self.is_red_spec(),
    {
        !self.is_red()
    }

    /// Whether `self` may be placed on top of `other` in a tableau column.
    pub fn can_stack_on(&self, other: &Card) -> (r: bool)
        ensures
            r == self.can_stack_on_spec(*other),
    {
        self.is_red() != other.is_red() && self.rank.value() == other.rank.value() - 1
    }

    /// A short text form of the card, `[A♥]` style; a face-down card shows
    /// as `[??]`.
    pub fn to_string_compact(&self) -> (s: String)
        ensures
            s@ == compact_text_spec(*self),
    {
        if !self.face_up {
            return String::from_str("[??]");
        }
        let mut s = String::from_str("[");
        s.append(rank_str(self.rank));
        s.append(suit_str(self.suit));
        s.append("]");
        s
    }
}

/// The text form of a rank inside a compact card label.
pub open spec fn rank_str_spec(r: Rank) -> Seq<char> {
    match r {
        Rank::Ace => "A"@,
        Rank::Two => "2"@,
        Rank::Three => "3"@,
        Rank::Four => "4"@,
        Rank::Five => "5"@,
        Rank::Six => "6"@,
        Rank::Seven => "7"@,
        Rank::Eight => "8"@,
        Rank::Nine => "9"@,
        Rank::Ten => "10"@,
        Rank::Jack => "J"@,
        Rank::Queen => "Q"@,
        Rank::King => "K"@,
    }
}

/// The symbol of a suit inside a compact card label.
pub open spec fn suit_str_spec(s: Suit) -> Seq<char> {
    match s {
        Suit::Hearts => "♥"@,
        Suit::Diamonds => "♦"@,
        Suit::Clubs => "♣"@,
        Suit::Spades => "♠"@,
    }
}

/// The compact text of a card: rank and suit in brackets when face up,
/// `[??]` when face down.
pub open spec fn compact_text_spec(c: Card) -> Seq<char> {
    if !c.face_up {
        "[??]"@
    } else {
        "["@ + rank_str_spec(c.rank) + suit_str_spec(c.suit) + "]"@
    }
}

pub fn rank_str(r: Rank) -> (s: &'static str)
    ensures
        s@ == rank_str_spec(r),
{
    match r {
        Rank::Ace => "A",
        Rank::Two => "2",
        Rank::Three => "3",
        Rank::Four => "4",
        Rank::Five => "5",
        Rank::Six => "6",
        Rank::Seven => "7",
        Rank::Eight => "8",
        Rank::Nine => "9",
        Rank::Ten => "10",
        Rank::Jack => "J",
        Rank::Queen => "Q",
        Rank::King => "K",
    }
}

pub fn suit_str(s: Suit) -> (r: &'static str)
    ensures
        r@ == suit_str_spec(s),
{
    match s {
        Suit::Hearts => "♥",
        Suit::Diamonds => "♦",
        Suit::Clubs => "♣",
        Suit::Spades => "♠",
    }
}

// ---------------------------------------------------------------------------
// Card identities and their multisets.
//
// The orientation of a card changes during play; its suit and rank never do.
// `card_id` forgets the orientation, and the `*_ids` functions collect the
// identities held by a pile or a group of piles, so that the engine can state
// that the 52 dealt cards are conserved by every operation.
// ---------------------------------------------------------------------------

/// The identity of a card: the same card turned face down.
pub open spec fn card_id(c: Card) -> Card {
    Card { suit: c.suit, rank: c.rank, face_up: false }
}

/// The multiset of card identities held by one pile.
pub open spec fn pile_ids(p: Seq<Card>) -> Multiset<Card> {
    p.map_values(|c: Card| card_id(c)).to_multiset()
}

/// The multiset of card identities held by a group of piles.
pub open spec fn piles_ids(ps: Seq<Seq<Card>>) -> Multiset<Card>
    decreases ps.len(),
{
    if ps.len() == 0 {
        Multiset::empty()
    } else {
        piles_ids(ps.drop_last()).add(pile_ids(ps.last()))
    }
}

/// Pushing a card onto a pile inserts its identity.
pub proof fn lemma_pile_ids_push(p: Seq<Card>, c: Card)
    ensures
        pile_ids(p.push(c)) == pile_ids(p).insert(card_id(c)),
{
    broadcast use vstd::seq_lib::group_to_multiset_ensures;

    let f = |x: Card| card_id(x);
    assert(p.push(c).map_values(f) =~= p.map_values(f).push(card_id(c)));
    assert(p.map_values(f).push(card_id(c)).to_multiset() =~= p.map_values(f).to_multiset().insert(
        card_id(c),
    ));
}

/// Removing the top card of a pile removes its identity.
pub proof fn lemma_pile_ids_drop_last(p: Seq<Card>)
    requires
        p.len() > 0,
    ensures
        pile_ids(p) == pile_ids(p.drop_last()).insert(card_id(p.last())),
{
    assert(p =~= p.drop_last().push(p.last()));
    lemma_pile_ids_push(p.drop_last(), p.last());
}

/// Identities add up over concatenation.
pub proof fn lemma_pile_ids_append(a: Seq<Card>, b: Seq<Card>)
    ensures
        pile_ids(a + b) == pile_ids(a).add(pile_ids(b)),
{
    let f = |x: Card| card_id(x);
    assert((a + b).map_values(f) =~= a.map_values(f) + b.map_values(f));
    vstd::seq_lib::lemma_multiset_commutative(a.map_values(f), b.map_values(f));
}

/// Two piles of the same cards in the same order, differing only in
/// orientation, hold the same identities.
pub proof fn lemma_pile_ids_same(a: Seq<Card>, b: Seq<Card>)
    requires
        a.len() == b.len(),
        forall|i: int| 0 <= i < a.len() ==> card_id(#[trigger] a[i]) == card_id(b[i]),
    ensures
        pile_ids(a) == pile_ids(b),
{
    let f = |x: Card| card_id(x);
    assert(a.map_values(f) =~= b.map_values(f));
}

/// Reversing a pile keeps its identities.
pub proof fn lemma_pile_ids_reverse(p: Seq<Card>)
    ensures
        pile_ids(p.reverse()) == pile_ids(p),
{
    let f = |x: Card| card_id(x);
    assert(p.reverse().map_values(f) =~= p.map_values(f).reverse());
    p.map_values(f).lemma_reverse_to_multiset();
}

/// Appending a pile to a pile group adds its identities.
pub proof fn lemma_piles_ids_snoc(ps: Seq<Seq<Card>>, q: Seq<Card>)
    ensures
        piles_ids(ps.push(q)) == piles_ids(ps).add(pile_ids(q)),
{
    assert(ps.push(q).drop_last() =~= ps);
    assert(ps.push(q).last() == q);
}

/// Replacing one pile inside a group exchanges exactly that pile's
/// identities, stated additively to avoid multiset subtraction.
pub proof fn lemma_piles_ids_update(ps: Seq<Seq<Card>>, i: int, q: Seq<Card>)
    requires
        0 <= i < ps.len(),
    ensures
        piles_ids(ps.update(i, q)).add(pile_ids(ps[i])) == piles_ids(ps).add(pile_ids(q)),
    decreases ps.len(),
{
    broadcast use vstd::multiset::group_multiset_axioms;

    let u = ps.update(i, q);
    if i == ps.len() - 1 {
        assert(u.drop_last() =~= ps.drop_last());
        assert(u.last() == q);
        assert(piles_ids(u).add(pile_ids(ps[i])) =~= piles_ids(ps).add(pile_ids(q)));
    } else {
        lemma_piles_ids_update(ps.drop_last(), i, q);
        assert(u.drop_last() =~= ps.drop_last().update(i, q));
        assert(u.last() == ps.last());
        assert(ps.drop_last()[i] == ps[i]);
        assert(piles_ids(u) == piles_ids(ps.drop_last().update(i, q)).add(pile_ids(ps.last())));
        assert(piles_ids(ps) == piles_ids(ps.drop_last()).add(pile_ids(ps.last())));
        assert forall|x: Card|
            piles_ids(u).add(pile_ids(ps[i])).count(x) == piles_ids(ps).add(pile_ids(q)).count(
                x,
            ) by {
            assert(piles_ids(ps.drop_last().update(i, q)).add(pile_ids(ps[i])).count(x)
                == piles_ids(ps.drop_last()).add(pile_ids(q)).count(x));
        }
        assert(piles_ids(u).add(pile_ids(ps[i])) =~= piles_ids(ps).add(pile_ids(q)));
    }
}

/// A pile of face-down cards is its own identity multiset.
pub proof fn lemma_face_down_ids(p: Seq<Card>)
    requires
        forall|i: int| 0 <= i < p.len() ==> !(#[trigger] p[i]).face_up,
    ensures
        pile_ids(p) == p.to_multiset(),
{
    let f = |x: Card| card_id(x);
    assert(p.map_values(f) =~= p);
}

/// A rearrangement of face-down cards is still all face down.
pub proof fn lemma_multiset_face_down(a: Seq<Card>, b: Seq<Card>)
    requires
        a.to_multiset() == b.to_multiset(),
        forall|i: int| 0 <= i < a.len() ==> !(#[trigger] a[i]).face_up,
    ensures
        forall|i: int| 0 <= i < b.len() ==> !(#[trigger] b[i]).face_up,
{
    broadcast use vstd::seq_lib::group_to_multiset_ensures;

    assert forall|i: int| 0 <= i < b.len() implies !(#[trigger] b[i]).face_up by {
        assert(b.contains(b[i]));
        assert(b.to_multiset().count(b[i]) > 0);
        assert(a.contains(b[i]));
        let j = choose|j: int| 0 <= j < a.len() && a[j] == b[i];
        assert(!a[j].face_up);
    }
}

// ---------------------------------------------------------------------------
// The standard deck.
// ---------------------------------------------------------------------------

/// The suit dealt in block `i` of the freshly built deck.
pub open spec fn suit_of_index_spec(i: int) -> Suit {
    if i == 0 {
        Suit::Hearts
    } else if i == 1 {
        Suit::Diamonds
    } else if i == 2 {
        Suit::Clubs
    } else {
        Suit::Spades
    }
}

/// The rank with numeric value `v`.
pub open spec fn rank_of_value_spec(v: int) -> Rank {
    if v == 1 {
        Rank::Ace
    } else if v == 2 {
        Rank::Two
    } else if v == 3 {
        Rank::Three
    } else if v == 4 {
        Rank::Four
    } else if v == 5 {
        Rank::Five
    } else if v == 6 {
        Rank::Six
    } else if v == 7 {
        Rank::Seven
    } else if v == 8 {
        Rank::Eight
    } else if v == 9 {
        Rank::Nine
    } else if v == 10 {
        Rank::Ten
    } else if v == 11 {
        Rank::Jack
    } else if v == 12 {
        Rank::Queen
    } else {
        Rank::King
    }
}

/// The 52-card deck in suit-major, rank-ascending order, all face down.
pub open spec fn standard_deck() -> Seq<Card> {
    Seq::new(
        52,
        |i: int|
            Card {
                suit: suit_of_index_spec(i / 13),
                rank: rank_of_value_spec(1 + i % 13),
                face_up: false,
            },
    )
}

/// The card identities of a full deck; the conservation invariant compares
/// every game state against this multiset.
pub open spec fn full_deck_ids() -> Multiset<Card> {
    pile_ids(standard_deck())
}

fn suit_of_index(i: usize) -> (s: Suit)
    requires
        i < 4,
    ensures
        s == suit_of_index_spec(i as int),
{
    if i == 0 {
        Suit::Hearts
    } else if i == 1 {
        Suit::Diamonds
    } else if i == 2 {
        Suit::Clubs
    } else {
        Suit::Spades
    }
}

fn rank_of_value(v: u8) -> (r: Rank)
    requires
        1 <= v <= 13,
    ensures
        r == rank_of_value_spec(v as int),
{
    if v == 1 {
        Rank::Ace
    } else if v == 2 {
        Rank::Two
    } else if v == 3 {
        Rank::Three
    } else if v == 4 {
        Rank::Four
    } else if v == 5 {
        Rank::Five
    } else if v == 6 {
        Rank::Six
    } else if v == 7 {
        Rank::Seven
    } else if v == 8 {
        Rank::Eight
    } else if v == 9 {
        Rank::Nine
    } else if v == 10 {
        Rank::Ten
    } else if v == 11 {
        Rank::Jack
    } else if v == 12 {
        Rank::Queen
    } else {
        Rank::King
    }
}

/// Build the 52-card deck, suit by suit, rank ascending, all face down.
pub fn create_standard_deck() -> (deck: Vec<Card>)
    ensures
        deck@ == standard_deck(),
        deck@.len() == 52,
{
    let mut deck: Vec<Card> = Vec::new();
    let mut s: usize = 0;
    while s < 4
        invariant
            s <= 4,
            deck@.len() == 13 * s,
            deck@ == standard_deck().take(13 * (s as int)),
        decreases 4 - s,
    {
        let mut v: u8 = 1;
        while v <= 13
            invariant
                s < 4,
                1 <= v <= 14,
                deck@.len() == 13 * s + (v - 1),
                deck@ == standard_deck().take(13 * (s as int) + (v as int) - 1),
            decreases 14 - v,
        {
            let card = Card::new(suit_of_index(s), rank_of_value(v));
            deck.push(card);
            proof {
                let k = 13 * (s as int) + (v as int) - 1;
                assert(k / 13 == s as int && k % 13 == (v as int) - 1);
                assert(standard_deck()[k] == card);
                assert(deck@ =~= standard_deck().take(k + 1));
            }
            v = v + 1;
        }
        s = s + 1;
    }
    proof {
        assert(deck@ =~= standard_deck());
    }
    deck
}

/// Shuffle the deck in place, delegating the randomness to `rand`.
///
/// Relies on rand's `SliceRandom::shuffle`, a Fisher-Yates shuffle that
/// rearranges the slice in place by swaps: every outcome holds exactly the
/// same cards, in some order. Nothing more is assumed of the order.
#[verifier::external_body]
pub fn shuffle_cards(deck: &mut Vec<Card>)
    ensures
        final(deck)@.len() == old(deck)@.len(),
        final(deck)@.to_multiset() == old(deck)@.to_multiset(),
{
    deck.shuffle(&mut rand::thread_rng());
}

} // verus!

verus! {

/// A pile holds as many identities as cards.
pub proof fn lemma_pile_ids_len(p: Seq<Card>)
    ensures
        pile_ids(p).len() == p.len(),
{
    broadcast use vstd::seq_lib::group_to_multiset_ensures;

    assert(p.map_values(|c: Card| card_id(c)).len() == p.len());
}

/// Each member pile's identities are counted inside the group's.
pub proof fn lemma_piles_ids_member_len(ps: Seq<Seq<Card>>, i: int)
    requires
        0 <= i < ps.len(),
    ensures
        piles_ids(ps).len() >= pile_ids(ps[i]).len(),
    decreases ps.len(),
{
    broadcast use vstd::multiset::group_multiset_axioms;

    if i == ps.len() - 1 {
        assert(ps.last() == ps[i]);
    } else {
        lemma_piles_ids_member_len(ps.drop_last(), i);
        assert(ps.drop_last()[i] == ps[i]);
    }
}

} // verus!
