//! Card values: a card is a number 0 to 51, its suit is the number divided
//! by 13 and its rank the remainder (0 for a two up to 12 for an ace).

use vstd::prelude::*;

verus! {

/// The four suits.
#[derive(Clone, Copy, Debug, PartialEq, Eq, Structural)]
pub enum Suit {
    Hearts,
    Diamonds,
    Clubs,
    Spades,
}

/// The thirteen ranks, lowest first.
#[derive(Clone, Copy, Debug, PartialEq, Eq, Structural)]
pub enum Rank {
    Two,
    Three,
    Four,
    Five,
    Six,
    Seven,
    Eight,
    Nine,
    Ten,
    Jack,
    Queen,
    King,
    Ace,
}

impl Suit {
    /// Number of the suit, 0 to 3.
    pub open spec fn number(self) -> u8 {
        match self {
            Suit::Hearts => 0,
            Suit::Diamonds => 1,
            Suit::Clubs => 2,
            Suit::Spades => 3,
        }
    }

    /// Number of the suit, 0 to 3.
    pub fn to_u8(self) -> (n: u8)
        ensures
            n == self.number(),
    {
        match self {
            Suit::Hearts => 0,
            Suit::Diamonds => 1,
            Suit::Clubs => 2,
            Suit::Spades => 3,
        }
    }
}

impl Rank {
    /// Number of the rank, 0 for a two up to 12 for an ace.
    pub open spec fn number(self) -> u8 {
        match self {
            Rank::Two => 0,
            Rank::Three => 1,
            Rank::Four => 2,
            Rank::Five => 3,
            Rank::Six => 4,
            Rank::Seven => 5,
            Rank::Eight => 6,
            Rank::Nine => 7,
            Rank::Ten => 8,
            Rank::Jack => 9,
            Rank::Queen => 10,
            Rank::King => 11,
            Rank::Ace => 12,
        }
    }

    /// Number of the rank, 0 for a two up to 12 for an ace.
    pub fn to_u8(self) -> (n: u8)
        ensures
            n == self.number(),
    {
        match self {
            Rank::Two => 0,
            Rank::Three => 1,
            Rank::Four => 2,
            Rank::Five => 3,
            Rank::Six => 4,
            Rank::Seven => 5,
            Rank::Eight => 6,
            Rank::Nine => 7,
            Rank::Ten => 8,
            Rank::Jack => 9,
            Rank::Queen => 10,
            Rank::King => 11,
            Rank::Ace => 12,
        }
    }
}

/// The suit of a card; values of 39 and above count as spades.
pub fn card_to_suit(card: u8) -> (suit: Suit)
    ensures
        suit.number() == if card / 13 < 3 {
            card / 13
        } else {
            3
        },
{
    match card / 13 {
        0 => Suit::Hearts,
        1 => Suit::Diamonds,
        2 => Suit::Clubs,
        _ => Suit::Spades,
    }
}

/// The rank of a card.
pub fn card_to_rank(card: u8) -> (rank: Rank)
    ensures
        rank.number() == card % 13,
{
    match card % 13 {
        0 => Rank::Two,
        1 => Rank::Three,
        2 => Rank::Four,
        3 => Rank::Five,
        4 => Rank::Six,
        5 => Rank::Seven,
        6 => Rank::Eight,
        7 => Rank::Nine,
        8 => Rank::Ten,
        9 => Rank::Jack,
        10 => Rank::Queen,
        11 => Rank::King,
        _ => Rank::Ace,
    }
}

/// The card of a suit and a rank.
pub fn encode_card(suit: Suit, rank: Rank) -> (card: u8)
    ensures
        card == suit.number() * 13 + rank.number(),
        card < 52,
{
    suit.to_u8() * 13 + rank.to_u8()
}

/// The character that stands for a rank: 2 to 9, T, J, Q, K, A.
pub open spec fn rank_char(rank: u8) -> char {
    if rank == 0 {
        '2'
    } else if rank == 1 {
        '3'
    } else if rank == 2 {
        '4'
    } else if rank == 3 {
        '5'
    } else if rank == 4 {
        '6'
    } else if rank == 5 {
        '7'
    } else if rank == 6 {
        '8'
    } else if rank == 7 {
        '9'
    } else if rank == 8 {
        'T'
    } else if rank == 9 {
        'J'
    } else if rank == 10 {
        'Q'
    } else if rank == 11 {
        'K'
    } else if rank == 12 {
        'A'
    } else {
        '?'
    }
}

/// The character that stands for a suit: h, d, c, s; `?` for a number that
/// is no suit.
pub open spec fn suit_char(suit: u8) -> char {
    if suit == 0 {
        'h'
    } else if suit == 1 {
        'd'
    } else if suit == 2 {
        'c'
    } else if suit == 3 {
        's'
    } else {
        '?'
    }
}

/// Appends a character to a string with `String::push`, which adds the
/// given char to the end of the string.
#[verifier::external_body]
fn push_char(text: &mut String, c: char)
    ensures
        final(text)@ == old(text)@.push(c),
{
    text.push(c);
}

/// A card as two characters, rank then suit, such as `Ah` or `Td`.
pub fn card_to_string(card: u8) -> (text: String)
    ensures
        text@ == seq![rank_char(card % 13), suit_char(card / 13)],
{
    let rank = match card % 13 {
        0 => '2',
        1 => '3',
        2 => '4',
        3 => '5',
        4 => '6',
        5 => '7',
        6 => '8',
        7 => '9',
        8 => 'T',
        9 => 'J',
        10 => 'Q',
        11 => 'K',
        12 => 'A',
        _ => '?',
    };
    let suit = match card / 13 {
        0 => 'h',
        1 => 'd',
        2 => 'c',
        3 => 's',
        _ => '?',
    };
    let mut text = String::new();
    push_char(&mut text, rank);
    push_char(&mut text, suit);
    assert(text@ =~= seq![rank_char(card % 13), suit_char(card / 13)]);
    text
}

} // verus!
