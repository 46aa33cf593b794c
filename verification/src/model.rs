//! Cards, ranks and suits, and the numbering that ties a card to one of the
//! 52 bit positions of a mask: position = rank * 4 + suit.

use vstd::prelude::*;

verus! {

/// The thirteen ranks, weakest first. The ace is high only.
#[derive(Debug, Clone, Copy, PartialEq, Eq, Structural, PartialOrd, Ord, Hash)]
pub enum Rank {
    Two,
    Three,
    Four,
    Five,
    Six,
    Seven,
    Eight,
    Nine,
    Ten,
    Jack,
    Queen,
    King,
    Ace,
}

/// The four suits. Suits carry no strength; they matter for flushes only.
#[derive(Debug, Clone, Copy, PartialEq, Eq, Structural, Hash)]
pub enum Suit {
    Hearts,
    Diamonds,
    Clubs,
    Spades,
}

/// One playing card.
#[derive(Debug, Clone, Copy, PartialEq, Eq, Structural, Hash)]
pub struct Card {
    pub rank: Rank,
    pub suit: Suit,
}

impl Rank {
    /// The rank's number: `0` for the two up to `12` for the ace.
    pub open spec fn spec_index(self) -> u8 {
        match self {
            Rank::Two => 0,
            Rank::Three => 1,
            Rank::Four => 2,
            Rank::Five => 3,
            Rank::Six => 4,
            Rank::Seven => 5,
            Rank::Eight => 6,
            Rank::Nine => 7,
            Rank::Ten => 8,
            Rank::Jack => 9,
            Rank::Queen => 10,
            Rank::King => 11,
            Rank::Ace => 12,
        }
    }

    /// The rank with number `i`, if there is one.
    pub open spec fn spec_from_index(i: u8) -> Option<Rank> {
        if i == 0 {
            Some(Rank::Two)
        } else if i == 1 {
            Some(Rank::Three)
        } else if i == 2 {
            Some(Rank::Four)
        } else if i == 3 {
            Some(Rank::Five)
        } else if i == 4 {
            Some(Rank::Six)
        } else if i == 5 {
            Some(Rank::Seven)
        } else if i == 6 {
            Some(Rank::Eight)
        } else if i == 7 {
            Some(Rank::Nine)
        } else if i == 8 {
            Some(Rank::Ten)
        } else if i == 9 {
            Some(Rank::Jack)
        } else if i == 10 {
            Some(Rank::Queen)
        } else if i == 11 {
            Some(Rank::King)
        } else if i == 12 {
            Some(Rank::Ace)
        } else {
            None
        }
    }

    /// The rank's number: `0` for the two up to `12` for the ace.
    #[verifier::when_used_as_spec(spec_index)]
    pub fn index(self) -> (i: u8)
        ensures
            i == self.spec_index(),
            i < 13,
            Rank::spec_from_index(i) == Some(self),
    {
        match self {
            Rank::Two => 0,
            Rank::Three => 1,
            Rank::Four => 2,
            Rank::Five => 3,
            Rank::Six => 4,
            Rank::Seven => 5,
            Rank::Eight => 6,
            Rank::Nine => 7,
            Rank::Ten => 8,
            Rank::Jack => 9,
            Rank::Queen => 10,
            Rank::King => 11,
            Rank::Ace => 12,
        }
    }

    /// The rank with number `i`: some rank exactly when `i` is below 13.
    #[verifier::when_used_as_spec(spec_from_index)]
    pub fn from_index(i: u8) -> (rank: Option<Rank>)
        ensures
            rank == Rank::spec_from_index(i),
            rank is Some <==> i < 13,
            rank is Some ==> rank->0.index() == i,
    {
        match i {
            0 => Some(Rank::Two),
            1 => Some(Rank::Three),
            2 => Some(Rank::Four),
            3 => Some(Rank::Five),
            4 => Some(Rank::Six),
            5 => Some(Rank::Seven),
            6 => Some(Rank::Eight),
            7 => Some(Rank::Nine),
            8 => Some(Rank::Ten),
            9 => Some(Rank::Jack),
            10 => Some(Rank::Queen),
            11 => Some(Rank::King),
            12 => Some(Rank::Ace),
            _ => None,
        }
    }
}

impl Suit {
    /// The suit's number: `0` for hearts up to `3` for spades.
    pub open spec fn spec_index(self) -> u8 {
        match self {
            Suit::Hearts => 0,
            Suit::Diamonds => 1,
            Suit::Clubs => 2,
            Suit::Spades => 3,
        }
    }

    /// The suit with number `i`, if there is one.
    pub open spec fn spec_from_index(i: u8) -> Option<Suit> {
        if i == 0 {
            Some(Suit::Hearts)
        } else if i == 1 {
            Some(Suit::Diamonds)
        } else if i == 2 {
            Some(Suit::Clubs)
        } else if i == 3 {
            Some(Suit::Spades)
        } else {
            None
        }
    }

    /// The suit's number: `0` for hearts up to `3` for spades.
    #[verifier::when_used_as_spec(spec_index)]
    pub fn index(self) -> (i: u8)
        ensures
            i == self.spec_index(),
            i < 4,
            Suit::spec_from_index(i) == Some(self),
    {
        match self {
            Suit::Hearts => 0,
            Suit::Diamonds => 1,
            Suit::Clubs => 2,
            Suit::Spades => 3,
        }
    }

    /// The suit with number `i`: some suit exactly when `i` is below 4.
    #[verifier::when_used_as_spec(spec_from_index)]
    pub fn from_index(i: u8) -> (suit: Option<Suit>)
        ensures
            suit == Suit::spec_from_index(i),
            suit is Some <==> i < 4,
            suit is Some ==> suit->0.index() == i,
    {
        match i {
            0 => Some(Suit::Hearts),
            1 => Some(Suit::Diamonds),
            2 => Some(Suit::Clubs),
            3 => Some(Suit::Spades),
            _ => None,
        }
    }
}

impl Card {
    /// The card's bit position: rank * 4 + suit.
    pub open spec fn spec_position(self) -> u8 {
        (self.rank.index() * 4 + self.suit.index()) as u8
    }

    /// The card at a bit position below 52: rank = position / 4,
    /// suit = position % 4.
    pub open spec fn spec_from_position(position: u8) -> Card
        recommends
            position < 52,
    {
        Card {
            rank: Rank::spec_from_index(position / 4)->0,
            suit: Suit::spec_from_index(position % 4)->0,
        }
    }

    /// The card's bit position, rank * 4 + suit: the inverse of
    /// [`Card::from_position`].
    #[verifier::when_used_as_spec(spec_position)]
    pub fn position(self) -> (position: u8)
        ensures
            position == self.spec_position(),
            position == self.rank.index() * 4 + self.suit.index(),
            position < 52,
            Card::spec_from_position(position) == self,
    {
        self.rank.index() * 4 + self.suit.index()
    }

    /// The card at a bit position: rank = position / 4, suit = position % 4.
    /// A position of 52 or more names no card and is not accepted.
    #[verifier::when_used_as_spec(spec_from_position)]
    pub fn from_position(position: u8) -> (card: Card)
        requires
            position < 52,
        ensures
            card == Card::spec_from_position(position),
            card.rank.index() == position / 4,
            card.suit.index() == position % 4,
            card.position() == position,
    {
        let rank = Rank::from_index(position / 4);
        let suit = Suit::from_index(position % 4);
        Card { rank: rank.unwrap(), suit: suit.unwrap() }
    }
}

} // verus!
