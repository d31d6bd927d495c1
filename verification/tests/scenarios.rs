use korrupt::bits::arr_from_binary;
use korrupt::bits::arr_to_binary;
use korrupt::plan::build_plan;
use korrupt::plan::MethodRequest;
use korrupt::transform::flip_part;
use korrupt::transform::remove_part;
use korrupt::transform::rotate_part_right;
use rand::RngCore;
use rand::SeedableRng;
use rand_xorshift::XorShiftRng;

fn fixed(name: &str, len: u64) -> MethodRequest {
    MethodRequest {
        name: name.to_string(),
        rounds: 1,
        fixed_len: Some(len),
        min_len: None,
        max_len: None,
    }
}

fn first_origin(seed: u64, bound: u64) -> u64 {
    let mut master = XorShiftRng::seed_from_u64(seed);
    master.next_u64();
    let mut child = XorShiftRng::from_rng(&mut master).unwrap();
    child.next_u64() % (bound + 1)
}

#[test]
fn flip_of_three_bits_at_the_origin() {
    let mut bits = arr_to_binary(vec![0b1011_0100]);
    flip_part(&mut bits, 0, 3);
    assert_eq!(arr_from_binary(bits), Ok(vec![0b0101_0100]));
}

#[test]
fn flip_of_three_bits_with_a_seed_that_samples_the_origin() {
    let seed = (0..1000u64).find(|seed| first_origin(*seed, 5) == 0).unwrap();
    let mut plan = build_plan(seed, &vec![fixed("flip", 3)], &vec![(0, 8)]).unwrap();
    assert_eq!(plan.run(vec![0b1011_0100]), Ok(vec![0b0101_0100]));
}

#[test]
fn flip_of_three_bits_wherever_they_are_sampled() {
    for seed in 0..50u64 {
        let origin = first_origin(seed, 5) as usize;
        let mut expected = arr_to_binary(vec![0b1011_0100]);
        flip_part(&mut expected, origin, 3);
        let mut plan = build_plan(seed, &vec![fixed("flip", 3)], &vec![(0, 8)]).unwrap();
        assert_eq!(plan.run(vec![0b1011_0100]), arr_from_binary(expected));
    }
}

#[test]
fn rotation_of_a_byte_by_four_places() {
    let mut bits = arr_to_binary(vec![0x0F, 0xF0]);
    rotate_part_right(&mut bits, 0, 8, 4);
    assert_eq!(arr_from_binary(bits), Ok(vec![0xF0, 0xF0]));
}

#[test]
fn shorten_by_the_first_byte() {
    let mut bits = arr_to_binary(vec![0x0F, 0xF0]);
    remove_part(&mut bits, 0, 8);
    assert_eq!(arr_from_binary(bits), Ok(vec![0xF0]));
}

#[test]
fn shorten_by_the_first_byte_through_a_plan() {
    for seed in 0..20u64 {
        let mut plan = build_plan(seed, &vec![fixed("shorten", 8)], &vec![(0, 8)]).unwrap();
        assert_eq!(plan.run(vec![0x0F, 0xF0]), Ok(vec![0xF0]));
    }
}
