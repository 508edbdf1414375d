use bump_allocator::align::checked_round_up;

#[test]
fn rounding_leaves_multiples_alone() {
    assert_eq!(checked_round_up(0x1000, 8), Some(0x1000));
    assert_eq!(checked_round_up(0, 7), Some(0));
    assert_eq!(checked_round_up(12, 1), Some(12));
    assert_eq!(checked_round_up(usize::MAX, 1), Some(usize::MAX));
}

#[test]
fn rounding_goes_to_the_next_multiple() {
    assert_eq!(checked_round_up(0x1001, 8), Some(0x1008));
    assert_eq!(checked_round_up(0x1007, 8), Some(0x1008));
    assert_eq!(checked_round_up(5, 3), Some(6));
    assert_eq!(checked_round_up(1, 4096), Some(4096));
    assert_eq!(checked_round_up(usize::MAX - 2, 2), Some(usize::MAX - 1));
}

#[test]
fn rounding_past_the_address_space_is_reported() {
    assert_eq!(checked_round_up(usize::MAX, 2), None);
    assert_eq!(checked_round_up(usize::MAX - 1, 4), None);
    assert_eq!(checked_round_up(1, (usize::MAX >> 1) + 1), Some((usize::MAX >> 1) + 1));
    assert_eq!(checked_round_up((usize::MAX >> 1) + 2, (usize::MAX >> 1) + 1), None);
}
