use plotto::combinations::next_combination;

#[test]
fn the_second_hand_follows_the_five_lowest_cards() {
    assert_eq!(next_combination(0b11111), 0b101111);
    assert_eq!(next_combination(0b101111), 0b110111);
    assert_eq!(next_combination(0b110111), 0b111011);
    assert_eq!(next_combination(0b111110), 0b1001111);
}

#[test]
fn a_run_at_the_top_drops_to_the_bottom() {
    assert_eq!(next_combination(0b11110000), 0b100000111);
    assert_eq!(next_combination(0b1011000), 0b1100001);
    assert_eq!(next_combination(1), 2);
    assert_eq!(next_combination(1 << 51), 1 << 52);
}

#[test]
fn the_last_hand_is_followed_by_a_mask_beyond_the_cards() {
    assert_eq!(next_combination(0b11111 << 47), (1 << 52) | 0b1111);
}

#[test]
fn the_next_mask_is_the_least_greater_one_with_as_many_bits() {
    let mut mask = 0b1011u64;
    for _ in 0..2_000 {
        let next = next_combination(mask);
        assert!(next > mask);
        assert_eq!(next.count_ones(), mask.count_ones());
        for between in (mask + 1)..next {
            assert_ne!(between.count_ones(), mask.count_ones());
        }
        mask = next;
    }
}
