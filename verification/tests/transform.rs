use korrupt::transform::add_noise;
use korrupt::transform::fill_part;
use korrupt::transform::flip_part;
use korrupt::transform::remove_part;
use korrupt::transform::repeat_part;
use korrupt::transform::reverse_part;
use korrupt::transform::rotate_part_left;
use korrupt::transform::rotate_part_right;
use korrupt::transform::swap_parts;
use korrupt::transform::xor_parts;

fn bits(text: &str) -> Vec<bool> {
    text.chars().map(|c| c == '1').collect()
}

#[test]
fn fill_sets_the_part() {
    let mut buffer = bits("11111111");
    fill_part(&mut buffer, 2, 3, false);
    assert_eq!(buffer, bits("11000111"));
    fill_part(&mut buffer, 3, 2, true);
    assert_eq!(buffer, bits("11011111"));
}

#[test]
fn fill_is_cut_off_at_the_end_of_the_buffer() {
    let mut buffer = bits("11111111");
    fill_part(&mut buffer, 6, 10, false);
    assert_eq!(buffer, bits("11111100"));
    fill_part(&mut buffer, 1, usize::MAX, false);
    assert_eq!(buffer, bits("10000000"));
}

#[test]
fn fill_beyond_the_buffer_changes_nothing() {
    let mut buffer = bits("10110100");
    fill_part(&mut buffer, 8, 4, true);
    assert_eq!(buffer, bits("10110100"));
    fill_part(&mut buffer, 9, 4, true);
    assert_eq!(buffer, bits("10110100"));
    fill_part(&mut buffer, usize::MAX, usize::MAX, true);
    assert_eq!(buffer, bits("10110100"));
    fill_part(&mut buffer, 3, 0, true);
    assert_eq!(buffer, bits("10110100"));
    let mut empty: Vec<bool> = Vec::new();
    fill_part(&mut empty, 0, 5, true);
    assert!(empty.is_empty());
}

#[test]
fn fill_twice_is_fill_once() {
    let mut once = bits("1011010011110000");
    fill_part(&mut once, 3, 7, false);
    let mut twice = once.clone();
    fill_part(&mut twice, 3, 7, false);
    assert_eq!(once, bits("1010000000110000"));
    assert_eq!(twice, once);
}

#[test]
fn flip_inverts_the_part() {
    let mut buffer = bits("10110100");
    flip_part(&mut buffer, 0, 3);
    assert_eq!(buffer, bits("01010100"));
    flip_part(&mut buffer, 6, 9);
    assert_eq!(buffer, bits("01010111"));
    flip_part(&mut buffer, 8, 1);
    assert_eq!(buffer, bits("01010111"));
}

#[test]
fn flip_twice_gives_the_buffer_back() {
    let start = bits("1011010011100101");
    let mut buffer = start.clone();
    flip_part(&mut buffer, 5, 6);
    assert_eq!(buffer, bits("1011001100000101"));
    flip_part(&mut buffer, 5, 6);
    assert_eq!(buffer, start);
}

#[test]
fn reverse_twice_gives_the_buffer_back() {
    let start = bits("1011010011100101");
    let mut buffer = start.clone();
    reverse_part(&mut buffer, 2, 9);
    assert_eq!(buffer, bits("1011100101100101"));
    reverse_part(&mut buffer, 2, 9);
    assert_eq!(buffer, start);
}

#[test]
fn reverse_turns_the_part_round() {
    let mut buffer = bits("10110100");
    reverse_part(&mut buffer, 1, 5);
    assert_eq!(buffer, bits("11011000"));
    let mut whole = bits("10110100");
    reverse_part(&mut whole, 0, 8);
    assert_eq!(whole, bits("00101101"));
}

#[test]
fn reverse_is_cut_off_at_the_end_of_the_buffer() {
    let mut buffer = bits("10110100");
    reverse_part(&mut buffer, 5, 100);
    assert_eq!(buffer, bits("10110001"));
    reverse_part(&mut buffer, 7, 1);
    assert_eq!(buffer, bits("10110001"));
    reverse_part(&mut buffer, 20, 4);
    assert_eq!(buffer, bits("10110001"));
}

#[test]
fn repeat_tiles_the_pattern_over_the_span() {
    let mut buffer = bits("1010000000111111");
    repeat_part(&mut buffer, 0, 3, 7);
    assert_eq!(buffer, bits("1011011011111111"));
}

#[test]
fn repeat_is_cut_off_at_the_end_of_the_buffer() {
    let mut buffer = bits("010000");
    repeat_part(&mut buffer, 1, 2, 100);
    assert_eq!(buffer, bits("010101"));
    let mut other = bits("1000000");
    repeat_part(&mut other, 0, 2, usize::MAX);
    assert_eq!(other, bits("1010101"));
}

#[test]
fn repeat_of_nothing_changes_nothing() {
    let mut buffer = bits("10110100");
    repeat_part(&mut buffer, 2, 0, 5);
    assert_eq!(buffer, bits("10110100"));
    repeat_part(&mut buffer, 2, 3, 0);
    assert_eq!(buffer, bits("10110100"));
    repeat_part(&mut buffer, 8, 3, 4);
    assert_eq!(buffer, bits("10110100"));
}

#[test]
fn remove_closes_the_gap() {
    let mut buffer = bits("10110100");
    remove_part(&mut buffer, 2, 3);
    assert_eq!(buffer, bits("10100"));
    remove_part(&mut buffer, 0, 1);
    assert_eq!(buffer, bits("0100"));
}

#[test]
fn remove_is_cut_off_at_the_end_of_the_buffer() {
    let mut buffer = bits("10110100");
    remove_part(&mut buffer, 6, 10);
    assert_eq!(buffer, bits("101101"));
    remove_part(&mut buffer, 6, 1);
    assert_eq!(buffer, bits("101101"));
    remove_part(&mut buffer, 2, 0);
    assert_eq!(buffer, bits("101101"));
    remove_part(&mut buffer, 0, usize::MAX);
    assert!(buffer.is_empty());
}

#[test]
fn noise_is_combined_by_exclusive_or() {
    let mut buffer = bits("10110100");
    add_noise(&mut buffer, 2, &bits("1101"));
    assert_eq!(buffer, bits("10000000"));
    add_noise(&mut buffer, 0, &bits("0000"));
    assert_eq!(buffer, bits("10000000"));
}

#[test]
fn noise_is_cut_off_at_the_end_of_the_buffer() {
    let mut buffer = bits("10110100");
    add_noise(&mut buffer, 6, &bits("1111"));
    assert_eq!(buffer, bits("10110111"));
    add_noise(&mut buffer, 8, &bits("1111"));
    assert_eq!(buffer, bits("10110111"));
    add_noise(&mut buffer, 3, &bits(""));
    assert_eq!(buffer, bits("10110111"));
}

#[test]
fn xor_combines_the_second_part_into_the_first() {
    let mut buffer = bits("10110100");
    xor_parts(&mut buffer, 0, 4, 4);
    assert_eq!(buffer, bits("11110100"));
    let mut back = bits("10110100");
    xor_parts(&mut back, 4, 0, 4);
    assert_eq!(back, bits("10111111"));
}

#[test]
fn xor_reads_the_second_part_as_it_was() {
    let mut buffer = bits("10110100");
    xor_parts(&mut buffer, 0, 2, 4);
    assert_eq!(buffer, bits("01100100"));
    let mut same = bits("10110100");
    xor_parts(&mut same, 2, 2, 3);
    assert_eq!(same, bits("10000100"));
}

#[test]
fn xor_is_cut_off_at_the_end_of_the_buffer() {
    let mut buffer = bits("10110111");
    xor_parts(&mut buffer, 0, 6, 4);
    assert_eq!(buffer, bits("01110111"));
    xor_parts(&mut buffer, 0, 8, 4);
    assert_eq!(buffer, bits("01110111"));
    xor_parts(&mut buffer, 9, 0, 4);
    assert_eq!(buffer, bits("01110111"));
}

#[test]
fn swap_exchanges_the_parts() {
    let mut buffer = bits("10110100");
    swap_parts(&mut buffer, 0, 4, 4);
    assert_eq!(buffer, bits("01001011"));
    swap_parts(&mut buffer, 4, 0, 4);
    assert_eq!(buffer, bits("10110100"));
}

#[test]
fn swap_is_cut_off_at_the_end_of_the_buffer() {
    let mut buffer = bits("10110100");
    swap_parts(&mut buffer, 0, 6, 4);
    assert_eq!(buffer, bits("00110110"));
    swap_parts(&mut buffer, 0, 8, 4);
    assert_eq!(buffer, bits("00110110"));
    swap_parts(&mut buffer, 3, 5, 0);
    assert_eq!(buffer, bits("00110110"));
}

#[test]
fn swap_of_overlapping_parts_goes_bit_by_bit() {
    let mut buffer = bits("1000");
    swap_parts(&mut buffer, 0, 1, 3);
    assert_eq!(buffer, bits("0001"));
    let mut same = bits("10110100");
    swap_parts(&mut same, 2, 2, 5);
    assert_eq!(same, bits("10110100"));
}

#[test]
fn rotate_right_moves_the_last_bits_to_the_front() {
    let mut buffer = bits("10110100");
    rotate_part_right(&mut buffer, 0, 8, 1);
    assert_eq!(buffer, bits("01011010"));
    let mut part = bits("10110100");
    rotate_part_right(&mut part, 2, 4, 1);
    assert_eq!(part, bits("10111000"));
    let mut three = bits("10110100");
    rotate_part_right(&mut three, 0, 8, 3);
    assert_eq!(three, bits("10010110"));
}

#[test]
fn rotate_left_moves_the_first_bits_to_the_end() {
    let mut buffer = bits("10110100");
    rotate_part_left(&mut buffer, 0, 8, 1);
    assert_eq!(buffer, bits("01101001"));
    let mut three = bits("10110100");
    rotate_part_left(&mut three, 0, 8, 3);
    assert_eq!(three, bits("10100101"));
    let mut part = bits("10110100");
    rotate_part_left(&mut part, 2, 4, 1);
    assert_eq!(part, bits("10101100"));
}

#[test]
fn rotation_by_the_length_of_the_part_changes_nothing() {
    let mut buffer = bits("10110100");
    rotate_part_right(&mut buffer, 0, 8, 8);
    assert_eq!(buffer, bits("10110100"));
    rotate_part_right(&mut buffer, 0, 8, 100);
    assert_eq!(buffer, bits("10110100"));
    rotate_part_left(&mut buffer, 0, 8, 8);
    assert_eq!(buffer, bits("10110100"));
    rotate_part_left(&mut buffer, 1, 3, usize::MAX);
    assert_eq!(buffer, bits("10110100"));
    rotate_part_right(&mut buffer, 3, 4, 0);
    assert_eq!(buffer, bits("10110100"));
}

#[test]
fn rotation_is_cut_off_at_the_end_of_the_buffer() {
    let mut buffer = bits("10110100");
    rotate_part_right(&mut buffer, 4, 100, 1);
    assert_eq!(buffer, bits("10110010"));
    rotate_part_left(&mut buffer, 4, 100, 1);
    assert_eq!(buffer, bits("10110100"));
    rotate_part_left(&mut buffer, 8, 4, 1);
    assert_eq!(buffer, bits("10110100"));
}

#[test]
fn rotations_undo_each_other() {
    let start = bits("1011010011100101");
    let mut buffer = start.clone();
    rotate_part_right(&mut buffer, 3, 9, 4);
    assert_ne!(buffer, start);
    rotate_part_left(&mut buffer, 3, 9, 4);
    assert_eq!(buffer, start);
}
