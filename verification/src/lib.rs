//! Five-card poker hands as 52-bit masks: a card codec, a hand ranker, the
//! enumeration of every hand, and the search for the best hand that completes
//! a pile from a deck.
//!
//! A card has the bit position rank * 4 + suit. A hand is a mask with exactly
//! five of the low 52 bits set. The canonical table lists every hand, the
//! strongest first, and the arbiter walks it to find the strongest hand that
//! holds a given pile and takes its other cards from a given deck.

pub mod arbiter;
pub mod categories;
pub mod codec;
pub mod combinations;
pub mod masks;
pub mod model;
pub mod order;
pub mod ranker;
pub mod table;

pub use arbiter::arbitrate_pile;
pub use categories::{category, Category};
pub use codec::{bits_to_card, card_to_bits, hand_to_cards};
pub use model::{Card, Rank, Suit};
pub use order::compare_hands;
pub use ranker::{
    flush, four_of_a_kind, full_house, high_card, pair, straight, three_of_a_kind, two_pair,
};
pub use table::all_hands;
