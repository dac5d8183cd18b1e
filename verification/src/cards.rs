use vstd::prelude::*;
use vstd::multiset::Multiset;

verus! {

/// The six ranks of the deck, listed from weakest to strongest.
#[derive(Debug, PartialEq, Eq, PartialOrd, Ord, Clone, Copy, Hash, Structural)]
pub enum Rank {
    Nine,
    Jack,
    Queen,
    King,
    Ten,
    Ace,
}

impl Rank {
    /// Position of the rank in the order Nine < Jack < Queen < King < Ten < Ace.
    pub open spec fn strength_spec(self) -> int {
        match self {
            Rank::Nine => 0,
            Rank::Jack => 1,
            Rank::Queen => 2,
            Rank::King => 3,
            Rank::Ten => 4,
            Rank::Ace => 5,
        }
    }

    /// Card points a rank is worth when captured in a trick.
    pub open spec fn points_spec(self) -> int {
        match self {
            Rank::Nine | Rank::Jack => 0,
            Rank::Queen | Rank::King => 5,
            Rank::Ten | Rank::Ace => 10,
        }
    }

    /// The character that stands for the rank.
    pub open spec fn symbol_spec(self) -> Seq<char> {
        match self {
            Rank::Nine => seq!['9'],
            Rank::Jack => seq!['J'],
            Rank::Queen => seq!['Q'],
            Rank::King => seq!['K'],
            Rank::Ten => seq!['T'],
            Rank::Ace => seq!['A'],
        }
    }

    pub fn symbol(self) -> (r: &'static str)
        ensures
            r@ == self.symbol_spec(),
    {
        proof {
            reveal_strlit("9");
            reveal_strlit("J");
            reveal_strlit("Q");
            reveal_strlit("K");
            reveal_strlit("T");
            reveal_strlit("A");
        }
        let r = match self {
            Rank::Nine => "9",
            Rank::Jack => "J",
            Rank::Queen => "Q",
            Rank::King => "K",
            Rank::Ten => "T",
            Rank::Ace => "A",
        };
        assert(r@ =~= self.symbol_spec());
        r
    }

    pub fn strength(self) -> (r: u8)
        ensures
            r == self.strength_spec(),
    {
        match self {
            Rank::Nine => 0,
            Rank::Jack => 1,
            Rank::Queen => 2,
            Rank::King => 3,
            Rank::Ten => 4,
            Rank::Ace => 5,
        }
    }

    pub fn points(self) -> (r: i32)
        ensures
            r == self.points_spec(),
    {
        match self {
            Rank::Nine => 0,
            Rank::Jack => 0,
            Rank::Queen => 5,
            Rank::King => 5,
            Rank::Ten => 10,
            Rank::Ace => 10,
        }
    }
}


/// The four suits.
#[derive(Debug, PartialEq, Eq, Clone, Copy, PartialOrd, Ord, Hash, Structural)]
pub enum Suit {
    Diamonds,
    Clubs,
    Hearts,
    Spades,
}

impl Suit {
    /// Position of the suit in the order Diamonds, Clubs, Hearts, Spades.
    pub open spec fn index_spec(self) -> int {
        match self {
            Suit::Diamonds => 0,
            Suit::Clubs => 1,
            Suit::Hearts => 2,
            Suit::Spades => 3,
        }
    }

    /// The character that stands for the suit.
    pub open spec fn symbol_spec(self) -> Seq<char> {
        match self {
            Suit::Diamonds => seq!['\u{2666}'],
            Suit::Clubs => seq!['\u{2663}'],
            Suit::Hearts => seq!['\u{2665}'],
            Suit::Spades => seq!['\u{2660}'],
        }
    }

    pub fn symbol(self) -> (r: &'static str)
        ensures
            r@ == self.symbol_spec(),
    {
        proof {
            reveal_strlit("\u{2666}");
            reveal_strlit("\u{2663}");
            reveal_strlit("\u{2665}");
            reveal_strlit("\u{2660}");
        }
        let r = match self {
            Suit::Diamonds => "\u{2666}",
            Suit::Clubs => "\u{2663}",
            Suit::Hearts => "\u{2665}",
            Suit::Spades => "\u{2660}",
        };
        assert(r@ =~= self.symbol_spec());
        r
    }

    pub fn index(self) -> (r: usize)
        ensures
            r == self.index_spec(),
            r < 4,
    {
        match self {
            Suit::Diamonds => 0,
            Suit::Clubs => 1,
            Suit::Hearts => 2,
            Suit::Spades => 3,
        }
    }
}

/// A card is a suit and a rank; the two copies of a card in the deck are
/// indistinguishable.
#[derive(Debug, PartialEq, Eq, Clone, Copy, PartialOrd, Ord, Hash, Structural)]
pub struct Card(pub Suit, pub Rank);

/// The suit at a position of the suit order.
pub open spec fn suit_at(i: int) -> Suit {
    if i == 0 {
        Suit::Diamonds
    } else if i == 1 {
        Suit::Clubs
    } else if i == 2 {
        Suit::Hearts
    } else {
        Suit::Spades
    }
}

/// The rank at a position of the rank order.
pub open spec fn rank_at(i: int) -> Rank {
    if i == 0 {
        Rank::Nine
    } else if i == 1 {
        Rank::Jack
    } else if i == 2 {
        Rank::Queen
    } else if i == 3 {
        Rank::King
    } else if i == 4 {
        Rank::Ten
    } else {
        Rank::Ace
    }
}

/// The 48 cards in suit order, then rank order, each card twice in a row.
pub open spec fn deck_seq() -> Seq<Card> {
    Seq::new(48, |i: int| Card(suit_at(i / 12), rank_at((i % 12) / 2)))
}

/// The deck as a bag of cards: two of each of the 24 faces.
pub open spec fn full_deck() -> Multiset<Card> {
    deck_seq().to_multiset()
}

pub fn suit_from_index(i: usize) -> (r: Suit)
    ensures
        r == suit_at(i as int),
{
    if i == 0 {
        Suit::Diamonds
    } else if i == 1 {
        Suit::Clubs
    } else if i == 2 {
        Suit::Hearts
    } else {
        Suit::Spades
    }
}

pub fn rank_from_index(i: usize) -> (r: Rank)
    ensures
        r == rank_at(i as int),
{
    if i == 0 {
        Rank::Nine
    } else if i == 1 {
        Rank::Jack
    } else if i == 2 {
        Rank::Queen
    } else if i == 3 {
        Rank::King
    } else if i == 4 {
        Rank::Ten
    } else {
        Rank::Ace
    }
}

/// A sequence without elements is an empty bag.
pub proof fn lemma_empty_bag<A>(s: Seq<A>)
    requires
        s.len() == 0,
    ensures
        s.to_multiset() == Multiset::<A>::empty(),
{
    vstd::seq_lib::to_multiset_len(s);
    vstd::multiset::lemma_multiset_empty_len(s.to_multiset());
    assert(s.to_multiset() =~= Multiset::<A>::empty());
}

/// The number of a face among the 24 faces of the deck.
pub open spec fn face_number(card: Card) -> int {
    card.0.index_spec() * 6 + card.1.strength_spec()
}

/// The number of copies of `card` among the first `n` cards of the deck.
pub open spec fn copies_before(card: Card, n: int) -> nat {
    let f = face_number(card);
    if n <= 2 * f {
        0
    } else if n == 2 * f + 1 {
        1
    } else {
        2
    }
}

/// The deck holds each card twice.
pub proof fn lemma_two_of_each(card: Card)
    ensures
        full_deck().count(card) == 2,
{
    lemma_copies_in_front(card, 48);
    assert(deck_seq().take(48) =~= deck_seq());
}

proof fn lemma_copies_in_front(card: Card, n: int)
    requires
        0 <= n <= 48,
    ensures
        deck_seq().take(n).to_multiset().count(card) == copies_before(card, n),
    decreases n,
{
    if n == 0 {
        lemma_empty_bag(deck_seq().take(0));
    } else {
        lemma_copies_in_front(card, n - 1);
        let front = deck_seq().take(n - 1);
        let last = deck_seq()[n - 1];
        assert(deck_seq().take(n) =~= front.push(last));
        vstd::seq_lib::to_multiset_build(front, last);
        assert(face_number(last) == (n - 1) / 2);
    }
}

/// Builds the unshuffled double deck.
pub fn deck() -> (r: Vec<Card>)
    ensures
        r@ == deck_seq(),
{
    let mut out: Vec<Card> = Vec::new();
    let mut i: usize = 0;
    while i < 48
        invariant
            i <= 48,
            out@.len() == i,
            forall|k: int| 0 <= k < i ==> out@[k] == deck_seq()[k],
        decreases 48 - i,
    {
        out.push(Card(suit_from_index(i / 12), rank_from_index((i % 12) / 2)));
        i += 1;
    }
    assert(out@ =~= deck_seq());
    out
}

/// Copies a list of cards.
pub fn copy_cards(cards: &Vec<Card>) -> (r: Vec<Card>)
    ensures
        r@ == cards@,
{
    let mut out: Vec<Card> = Vec::new();
    let mut i: usize = 0;
    while i < cards.len()
        invariant
            i <= cards@.len(),
            out@ == cards@.take(i as int),
        decreases cards@.len() - i,
    {
        out.push(cards[i]);
        assert(cards@.take(i + 1) =~= cards@.take(i as int).push(cards@[i as int]));
        i += 1;
    }
    assert(cards@.take(cards@.len() as int) =~= cards@);
    out
}

/// One of the four seats, in playing order.
#[derive(Debug, PartialEq, Eq, Clone, Copy, Hash, Structural)]
pub enum Player {
    A,
    B,
    C,
    D,
}

/// The seat at a position of the playing order, taken modulo four.
pub open spec fn seat_at(i: int) -> Player {
    let k = i % 4;
    if k == 0 {
        Player::A
    } else if k == 1 {
        Player::B
    } else if k == 2 {
        Player::C
    } else {
        Player::D
    }
}

impl TryFrom<usize> for Player {
    type Error = ();

    fn try_from(value: usize) -> (r: Result<Self, ()>) {
        match Player::from_index(value) {
            Some(p) => Ok(p),
            None => Err(()),
        }
    }
}

impl vstd::std_specs::convert::TryFromSpecImpl<usize> for Player {
    open spec fn obeys_try_from_spec() -> bool {
        true
    }

    open spec fn try_from_spec(value: usize) -> Result<Self, ()> {
        if value < 4 {
            Ok(seat_at(value as int))
        } else {
            Err(())
        }
    }
}

impl Player {
    /// Position of the seat in the playing order.
    pub open spec fn index_spec(self) -> int {
        match self {
            Player::A => 0,
            Player::B => 1,
            Player::C => 2,
            Player::D => 3,
        }
    }

    /// The team of a seat: 0 for seats A and C, 1 for seats B and D.
    pub open spec fn team_spec(self) -> int {
        self.index_spec() % 2
    }

    pub fn index(self) -> (r: usize)
        ensures
            r == self.index_spec(),
            r < 4,
    {
        match self {
            Player::A => 0,
            Player::B => 1,
            Player::C => 2,
            Player::D => 3,
        }
    }

    pub fn team(self) -> (r: usize)
        ensures
            r == self.team_spec(),
            r < 2,
    {
        match self {
            Player::A => 0,
            Player::B => 1,
            Player::C => 0,
            Player::D => 1,
        }
    }

    /// The seat with the given position, if the position is one of 0 to 3.
    pub fn from_index(value: usize) -> (r: Option<Player>)
        ensures
            value < 4 ==> r == Some(seat_at(value as int)),
            value >= 4 ==> r.is_none(),
    {
        match value {
            0 => Some(Player::A),
            1 => Some(Player::B),
            2 => Some(Player::C),
            3 => Some(Player::D),
            _ => None,
        }
    }

    /// The seat that acts after this one.
    pub fn next(self) -> (r: Player)
        ensures
            r == seat_at(self.index_spec() + 1),
    {
        match self {
            Player::A => Player::B,
            Player::B => Player::C,
            Player::C => Player::D,
            Player::D => Player::A,
        }
    }

    /// The seat that acts before this one.
    pub fn previous(self) -> (r: Player)
        ensures
            r == seat_at(self.index_spec() + 3),
    {
        match self {
            Player::A => Player::D,
            Player::B => Player::A,
            Player::C => Player::B,
            Player::D => Player::C,
        }
    }
}

/// The seat opposite to `player`.
pub open spec fn partner_spec(player: Player) -> Player {
    seat_at(player.index_spec() + 2)
}

pub fn partner(player: Player) -> (r: Player)
    ensures
        r == partner_spec(player),
{
    player.next().next()
}

/// Partnership is symmetric, nobody is their own partner, and partners share a team.
pub proof fn lemma_partner_involution(p: Player)
    ensures
        partner_spec(partner_spec(p)) == p,
        partner_spec(p) != p,
        partner_spec(p).team_spec() == p.team_spec(),
{
}

/// The four seats in playing order, starting with `player`.
pub fn each_player(player: Player) -> (r: [Player; 4])
    ensures
        forall|k: int| 0 <= k < 4 ==> r@[k] == seat_at(player.index_spec() + k),
{
    let b = player.next();
    let c = b.next();
    let d = c.next();
    [player, b, c, d]
}

} // verus!
