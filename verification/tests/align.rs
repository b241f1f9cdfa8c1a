use vhost_user_conduit::align::align_upwards;

#[test]
fn rounds_up_to_the_next_multiple() {
    assert_eq!(align_upwards(10, 4), 12);
    assert_eq!(align_upwards(1, 4096), 4096);
    assert_eq!(align_upwards(4097, 4096), 8192);
}

#[test]
fn keeps_a_multiple() {
    assert_eq!(align_upwards(0, 4096), 0);
    assert_eq!(align_upwards(8192, 4096), 8192);
    assert_eq!(align_upwards(7, 1), 7);
    assert_eq!(align_upwards(align_upwards(10, 4), 4), 12);
}

#[test]
fn rounds_up_at_the_end_of_the_range() {
    assert_eq!(align_upwards(usize::MAX - 4095, 4096), usize::MAX - 4095);
}
