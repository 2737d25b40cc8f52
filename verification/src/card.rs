//! The card model: suits, colors, ranks, the immutable card identity,
//! and the face-up/face-down wrapper used by the tableau piles.

use vstd::prelude::*;
use vstd::string::StringExecFns;

use crate::text::push_char;

verus! {

/// Rendering of an empty container.
pub const DISPLAY_EMPTY: &'static str = "{   }";

/// Rendering of a tableau row with no card at that height.
pub const DISPLAY_BLANK: &'static str = "     ";

/// Rendering of a face-down card.
pub const DISPLAY_CARD_BACK: &'static str = "{###}";

#[derive(Debug, PartialEq, Eq, Structural, Clone, Copy)]
pub enum Suit {
    Heart,
    Diamond,
    Club,
    Spade,
}

#[derive(Debug, PartialEq, Eq, Structural, Clone, Copy)]
pub enum Color {
    Red,
    Black,
}

#[derive(Debug, PartialEq, Eq, Structural, Clone, Copy)]
pub enum Value {
    Ace,
    Two,
    Three,
    Four,
    Five,
    Six,
    Seven,
    Eight,
    Nine,
    Ten,
    Jack,
    Queen,
    King,
}

#[derive(Debug, PartialEq, Eq, Structural, Clone, Copy)]
pub struct Card {
    pub suit: Suit,
    pub value: Value,
}

impl Color {
    /// The opening bracket of a card of this color.
    pub open spec fn spec_open_char(self) -> char {
        match self {
            Color::Red => '(',
            Color::Black => '[',
        }
    }

    /// The closing bracket of a card of this color.
    pub open spec fn spec_close_char(self) -> char {
        match self {
            Color::Red => ')',
            Color::Black => ']',
        }
    }

    /// The separator between rank and suit of a card of this color.
    pub open spec fn spec_middle_char(self) -> char {
        match self {
            Color::Red => ':',
            Color::Black => '.',
        }
    }

    pub fn open_char(&self) -> (c: char)
        ensures
            c == self.spec_open_char(),
    {
        match self {
            Color::Red => '(',
            Color::Black => '[',
        }
    }

    pub fn close_char(&self) -> (c: char)
        ensures
            c == self.spec_close_char(),
    {
        match self {
            Color::Red => ')',
            Color::Black => ']',
        }
    }

    pub fn middle_char(&self) -> (c: char)
        ensures
            c == self.spec_middle_char(),
    {
        match self {
            Color::Red => ':',
            Color::Black => '.',
        }
    }
}

impl Suit {
    /// Hearts and diamonds are red; clubs and spades are black.
    pub open spec fn spec_color(self) -> Color {
        match self {
            Suit::Heart => Color::Red,
            Suit::Diamond => Color::Red,
            Suit::Club => Color::Black,
            Suit::Spade => Color::Black,
        }
    }

    /// The one-letter code of this suit.
    pub open spec fn spec_code(self) -> char {
        match self {
            Suit::Heart => 'H',
            Suit::Diamond => 'D',
            Suit::Club => 'C',
            Suit::Spade => 'S',
        }
    }

    pub fn color(&self) -> (c: Color)
        ensures
            c == self.spec_color(),
    {
        match self {
            Suit::Heart => Color::Red,
            Suit::Diamond => Color::Red,
            Suit::Club => Color::Black,
            Suit::Spade => Color::Black,
        }
    }

    pub fn is_different_color(&self, other: &Suit) -> (r: bool)
        ensures
            r == (self.spec_color() != other.spec_color()),
    {
        self.color() != other.color()
    }

    pub fn code(&self) -> (c: char)
        ensures
            c == self.spec_code(),
    {
        match self {
            Suit::Heart => 'H',
            Suit::Diamond => 'D',
            Suit::Club => 'C',
            Suit::Spade => 'S',
        }
    }
}

impl Value {
    /// Ranks run from 1 (ace) to 13 (king), totally ordered, no wraparound.
    pub open spec fn spec_rank(self) -> int {
        match self {
            Value::Ace => 1,
            Value::Two => 2,
            Value::Three => 3,
            Value::Four => 4,
            Value::Five => 5,
            Value::Six => 6,
            Value::Seven => 7,
            Value::Eight => 8,
            Value::Nine => 9,
            Value::Ten => 10,
            Value::Jack => 11,
            Value::Queen => 12,
            Value::King => 13,
        }
    }

    /// The one-character code of this rank.
    pub open spec fn spec_code(self) -> char {
        match self {
            Value::Ace => 'A',
            Value::Two => '2',
            Value::Three => '3',
            Value::Four => '4',
            Value::Five => '5',
            Value::Six => '6',
            Value::Seven => '7',
            Value::Eight => '8',
            Value::Nine => '9',
            Value::Ten => 'T',
            Value::Jack => 'J',
            Value::Queen => 'Q',
            Value::King => 'K',
        }
    }

    pub fn rank(&self) -> (r: i8)
        ensures
            r as int == self.spec_rank(),
            1 <= r <= 13,
    {
        match self {
            Value::Ace => 1,
            Value::Two => 2,
            Value::Three => 3,
            Value::Four => 4,
            Value::Five => 5,
            Value::Six => 6,
            Value::Seven => 7,
            Value::Eight => 8,
            Value::Nine => 9,
            Value::Ten => 10,
            Value::Jack => 11,
            Value::Queen => 12,
            Value::King => 13,
        }
    }

    pub fn code(&self) -> (c: char)
        ensures
            c == self.spec_code(),
    {
        match self {
            Value::Ace => 'A',
            Value::Two => '2',
            Value::Three => '3',
            Value::Four => '4',
            Value::Five => '5',
            Value::Six => '6',
            Value::Seven => '7',
            Value::Eight => '8',
            Value::Nine => '9',
            Value::Ten => 'T',
            Value::Jack => 'J',
            Value::Queen => 'Q',
            Value::King => 'K',
        }
    }
}

impl Card {
    /// True iff the two cards' suits map to different colors.
    pub open spec fn spec_is_different_color(self, other: Card) -> bool {
        self.suit.spec_color() != other.suit.spec_color()
    }

    /// True iff this card is a king.
    pub open spec fn spec_is_king(self) -> bool {
        self.value == Value::King
    }

    /// True iff `other` is exactly one rank above this card (no wraparound).
    pub open spec fn spec_is_one_more(self, other: Card) -> bool {
        other.value.spec_rank() == self.value.spec_rank() + 1
    }

    /// True iff `other` is exactly one rank below this card (no wraparound).
    pub open spec fn spec_is_one_less(self, other: Card) -> bool {
        other.value.spec_rank() == self.value.spec_rank() - 1
    }

    pub fn is_different_color(&self, card: &Card) -> (r: bool)
        ensures
            r == self.spec_is_different_color(*card),
    {
        self.suit.is_different_color(&card.suit)
    }

    pub fn is_king(&self) -> (r: bool)
        ensures
            r == self.spec_is_king(),
    {
        self.value.rank() == Value::King.rank()
    }

    pub fn is_one_more(&self, card: &Card) -> (r: bool)
        ensures
            r == self.spec_is_one_more(*card),
    {
        1 == card.value.rank() - self.value.rank()
    }

    pub fn is_one_less(&self, card: &Card) -> (r: bool)
        ensures
            r == self.spec_is_one_less(*card),
    {
        1 == self.value.rank() - card.value.rank()
    }

    /// The fixed-width rendering of a face-up card: the rank and suit codes
    /// between color-keyed punctuation.
    pub open spec fn spec_display(self) -> Seq<char> {
        seq![
            self.suit.spec_color().spec_open_char(),
            self.value.spec_code(),
            self.suit.spec_color().spec_middle_char(),
            self.suit.spec_code(),
            self.suit.spec_color().spec_close_char(),
        ]
    }

    pub fn display(&self) -> (s: String)
        ensures
            s@ == self.spec_display(),
    {
        let mut s = String::new();
        push_char(&mut s, self.suit.color().open_char());
        push_char(&mut s, self.value.code());
        push_char(&mut s, self.suit.color().middle_char());
        push_char(&mut s, self.suit.code());
        push_char(&mut s, self.suit.color().close_char());
        assert(s@ =~= self.spec_display());
        s
    }
}

/// A card together with its visibility in a tableau pile: face-down cards
/// were dealt and not yet revealed; face-up cards are visible to the player.
#[derive(Debug, PartialEq, Eq, Structural, Clone, Copy)]
pub struct CardState {
    pub card: Card,
    pub face_up: bool,
}

impl CardState {
    /// Whether this card lies face-up.
    pub open spec fn spec_is_visible(self) -> bool {
        self.face_up
    }

    /// The same card, face-up.
    pub open spec fn spec_make_visible(self) -> CardState {
        CardState { card: self.card, face_up: true }
    }

    pub fn new(card: Card, is_visible: bool) -> (cs: CardState)
        ensures
            cs.card == card,
            cs.spec_is_visible() == is_visible,
    {
        CardState { card, face_up: is_visible }
    }

    pub fn is_visible(&self) -> (r: bool)
        ensures
            r == self.spec_is_visible(),
    {
        self.face_up
    }

    pub fn make_visible(&mut self)
        ensures
            *final(self) == old(self).spec_make_visible(),
    {
        self.face_up = true;
    }

    /// The rendering of this card: the card itself when face-up, the
    /// card back otherwise.
    pub open spec fn spec_display(self) -> Seq<char> {
        if self.spec_is_visible() {
            self.card.spec_display()
        } else {
            DISPLAY_CARD_BACK@
        }
    }

    pub fn display(&self) -> (s: String)
        ensures
            s@ == self.spec_display(),
    {
        if self.is_visible() {
            self.card.display()
        } else {
            String::from_str(DISPLAY_CARD_BACK)
        }
    }
}

} // verus!
