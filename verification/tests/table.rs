use plotto::masks::is_hand_mask;
use plotto::order::compare_hands;
use plotto::table::{all_hands, HAND_COUNT};
use std::cmp::Ordering;

#[test]
fn table_holds_every_hand_once() {
    let table = all_hands();
    assert_eq!(table.len(), 2_598_960);
    assert_eq!(table.len(), HAND_COUNT);
    for hand in table.iter() {
        assert!(is_hand_mask(*hand));
    }
    let mut sorted = table.clone();
    sorted.sort();
    for i in 1..sorted.len() {
        assert!(sorted[i - 1] < sorted[i]);
    }
    assert_eq!(sorted[0], 0b11111);
    assert_eq!(sorted[1], 0b101111);
    assert_eq!(sorted[sorted.len() - 1], 0b11111 << 47);
}

#[test]
fn table_runs_from_the_strongest_to_the_weakest() {
    let table = all_hands();
    for i in 1..table.len() {
        let order = compare_hands(table[i - 1], table[i]);
        assert_ne!(order, Ordering::Less);
        if order == Ordering::Equal {
            assert!(table[i - 1] < table[i]);
        }
    }
}

#[test]
fn table_starts_with_the_royal_flushes_and_ends_with_seven_high() {
    let table = all_hands();
    assert_eq!(table[0], 0x1_1111_0000_0000);
    assert_eq!(table[1], 0x2_2222_0000_0000);
    assert_eq!(table[2], 0x4_4444_0000_0000);
    assert_eq!(table[3], 0x8_8888_0000_0000);
    assert_eq!(table[4], 0x1111_1000_0000);
    assert_eq!(table[table.len() - 1], 0x88_8804);
    assert_eq!(compare_hands(table[0], table[3]), Ordering::Equal);
    assert_eq!(compare_hands(table[3], table[4]), Ordering::Greater);
}
