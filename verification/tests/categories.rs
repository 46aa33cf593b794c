use plotto::categories::{category, Category};
use plotto::table::all_hands;

/// The category of a hand, counted out from its cards.
fn category_by_counting(hand: u64) -> Category {
    let mut of_rank = [0u32; 13];
    let mut of_suit = [0u32; 4];
    let mut rest = hand;
    while rest != 0 {
        let position = rest.trailing_zeros() as usize;
        of_rank[position / 4] += 1;
        of_suit[position % 4] += 1;
        rest &= rest - 1;
    }
    let flush = of_suit.iter().any(|n| *n == 5);
    let straight = (0..9).any(|low| (low..low + 5).all(|rank| of_rank[rank] == 1));
    let fours = of_rank.iter().filter(|n| **n == 4).count();
    let threes = of_rank.iter().filter(|n| **n == 3).count();
    let twos = of_rank.iter().filter(|n| **n == 2).count();
    if flush && straight {
        Category::StraightFlush
    } else if fours == 1 {
        Category::FourOfAKind
    } else if threes == 1 && twos == 1 {
        Category::FullHouse
    } else if flush {
        Category::Flush
    } else if straight {
        Category::Straight
    } else if threes == 1 {
        Category::ThreeOfAKind
    } else if twos == 2 {
        Category::TwoPair
    } else if twos == 1 {
        Category::Pair
    } else {
        Category::HighCard
    }
}

#[test]
fn every_hand_has_the_category_that_its_cards_show() {
    for hand in all_hands() {
        assert_eq!(category(hand), category_by_counting(hand));
    }
}

#[test]
fn the_categories_hold_the_known_numbers_of_hands() {
    let mut counts = [0usize; 9];
    for hand in all_hands() {
        counts[category(hand).index() as usize] += 1;
    }
    assert_eq!(counts[Category::StraightFlush.index() as usize], 36);
    assert_eq!(counts[Category::FourOfAKind.index() as usize], 624);
    assert_eq!(counts[Category::FullHouse.index() as usize], 3_744);
    assert_eq!(counts[Category::Flush.index() as usize], 5_112);
    assert_eq!(counts[Category::Straight.index() as usize], 9_180);
    assert_eq!(counts[Category::ThreeOfAKind.index() as usize], 54_912);
    assert_eq!(counts[Category::TwoPair.index() as usize], 123_552);
    assert_eq!(counts[Category::Pair.index() as usize], 1_098_240);
    assert_eq!(counts[Category::HighCard.index() as usize], 1_303_560);
}

#[test]
fn the_table_goes_down_through_the_categories() {
    let table = all_hands();
    assert_eq!(category(table[0]), Category::StraightFlush);
    assert_eq!(category(table[35]), Category::StraightFlush);
    assert_eq!(category(table[36]), Category::FourOfAKind);
    assert_eq!(category(table[36 + 624]), Category::FullHouse);
    assert_eq!(category(table[table.len() - 1]), Category::HighCard);
    for i in 1..table.len() {
        assert!(category(table[i - 1]) >= category(table[i]));
    }
}
