use korrupt::config::KorruptionMethodConfig;
use korrupt::method::KorruptionMethod;
use korrupt::sampler::PartLengthGenerator;
use korrupt::transform::add_noise;
use korrupt::transform::fill_part;
use korrupt::transform::flip_part;
use korrupt::transform::remove_part;
use korrupt::transform::repeat_part;
use korrupt::transform::reverse_part;
use korrupt::transform::rotate_part_left;
use korrupt::transform::rotate_part_right;
use korrupt::transform::swap_parts;
use korrupt::transform::xor_parts;
use rand::SeedableRng;
use rand_xorshift::XorShiftRng;

fn buffer_of(text: &str) -> Vec<bool> {
    text.chars().map(|c| c == '1').collect()
}

fn pattern(len: usize) -> Vec<bool> {
    (0..len).map(|i| (i * i + i / 3) % 5 < 2).collect()
}

fn config(
    method: KorruptionMethod,
    rounds: u64,
    min: u64,
    max: u64,
    seed: u64,
) -> KorruptionMethodConfig {
    KorruptionMethodConfig::new(
        method,
        rounds,
        PartLengthGenerator::new(min, max, XorShiftRng::seed_from_u64(seed)),
    )
}

fn twin(min: u64, max: u64, seed: u64) -> PartLengthGenerator {
    PartLengthGenerator::new(min, max, XorShiftRng::seed_from_u64(seed))
}

fn all_methods() -> Vec<KorruptionMethod> {
    vec![
        KorruptionMethod::Zeros,
        KorruptionMethod::Ones,
        KorruptionMethod::Flip,
        KorruptionMethod::Swap,
        KorruptionMethod::Reverse,
        KorruptionMethod::Repeat,
        KorruptionMethod::Shorten,
        KorruptionMethod::AddNoise,
        KorruptionMethod::Interference,
        KorruptionMethod::RRotate,
        KorruptionMethod::LRotate,
    ]
}

#[test]
fn new_config_holds_what_it_was_given() {
    let made = config(KorruptionMethod::Reverse, 7, 2, 9, 1);
    assert_eq!(made.method, KorruptionMethod::Reverse);
    assert_eq!(made.rounds, 7);
}

#[test]
fn zeros_round_clears_the_sampled_part() {
    let mut bits = buffer_of("1111111111111111");
    let mut zeros = config(KorruptionMethod::Zeros, 1, 5, 5, 4);
    zeros.process_once(&mut bits, 4, 5);
    assert_eq!(bits, buffer_of("1111000001111111"));
}

#[test]
fn ones_round_sets_the_sampled_part() {
    let mut bits = buffer_of("0000000000000000");
    let mut ones = config(KorruptionMethod::Ones, 1, 3, 3, 4);
    ones.process_once(&mut bits, 13, 3);
    assert_eq!(bits, buffer_of("0000000000000111"));
}

#[test]
fn flip_round_inverts_the_sampled_part() {
    let mut bits = buffer_of("1011010010110100");
    let mut flip = config(KorruptionMethod::Flip, 1, 8, 8, 4);
    flip.process_once(&mut bits, 8, 8);
    assert_eq!(bits, buffer_of("1011010001001011"));
}

#[test]
fn reverse_round_turns_the_sampled_part_round() {
    let mut bits = buffer_of("1011010011110000");
    let mut reverse = config(KorruptionMethod::Reverse, 1, 8, 8, 4);
    reverse.process_once(&mut bits, 0, 8);
    assert_eq!(bits, buffer_of("0010110111110000"));
}

#[test]
fn shorten_round_removes_the_sampled_part() {
    let mut bits = buffer_of("0000111111110000");
    let mut shorten = config(KorruptionMethod::Shorten, 1, 8, 8, 4);
    shorten.process_once(&mut bits, 0, 8);
    assert_eq!(bits, buffer_of("11110000"));
}

#[test]
fn part_is_sampled_as_length_then_origin() {
    for seed in 0..20u64 {
        let mut bits = pattern(40);
        let mut expected = bits.clone();
        let mut flip = config(KorruptionMethod::Flip, 1, 1, 6, seed);
        let mut sampler = twin(1, 6, seed);
        flip.process_once(&mut bits, 5, 20);
        let len = sampler.get_len();
        let origin = sampler.get_origin(20 - len);
        flip_part(&mut expected, (5 + origin) as usize, len as usize);
        assert_eq!(bits, expected);
    }
}

#[test]
fn part_is_cut_down_to_the_region() {
    for seed in 0..20u64 {
        let mut bits = pattern(40);
        let mut expected = bits.clone();
        let mut zeros = config(KorruptionMethod::Zeros, 1, 10, 30, seed);
        let mut sampler = twin(10, 30, seed);
        zeros.process_once(&mut bits, 30, 15);
        let wanted = sampler.get_len();
        let len = if wanted < 10 { wanted } else { 10 };
        let origin = sampler.get_origin(10 - len);
        assert_eq!(origin, 0);
        fill_part(&mut expected, 30, 10, false);
        assert_eq!(bits, expected);
    }
}

#[test]
fn swap_round_samples_two_parts() {
    for seed in 0..20u64 {
        let mut bits = pattern(64);
        let mut expected = bits.clone();
        let mut swap = config(KorruptionMethod::Swap, 1, 2, 9, seed);
        let mut sampler = twin(2, 9, seed);
        swap.process_once(&mut bits, 8, 40);
        let (first, first_len) = sampler.get_part(40);
        let (second, second_len) = sampler.get_part(40);
        let shorter = if first_len < second_len { first_len } else { second_len };
        swap_parts(
            &mut expected,
            (8 + first) as usize,
            (8 + second) as usize,
            shorter as usize,
        );
        assert_eq!(bits, expected);
    }
}

#[test]
fn interference_round_samples_two_parts() {
    for seed in 0..20u64 {
        let mut bits = pattern(64);
        let mut expected = bits.clone();
        let mut interference = config(KorruptionMethod::Interference, 1, 2, 9, seed);
        let mut sampler = twin(2, 9, seed);
        interference.process_once(&mut bits, 8, 40);
        let (first, first_len) = sampler.get_part(40);
        let (second, second_len) = sampler.get_part(40);
        let shorter = if first_len < second_len { first_len } else { second_len };
        xor_parts(
            &mut expected,
            (8 + first) as usize,
            (8 + second) as usize,
            shorter as usize,
        );
        assert_eq!(bits, expected);
    }
}

#[test]
fn repeat_round_tiles_the_rest_of_the_region() {
    for seed in 0..20u64 {
        let mut bits = pattern(64);
        let mut expected = bits.clone();
        let mut repeat = config(KorruptionMethod::Repeat, 1, 1, 5, seed);
        let mut sampler = twin(1, 5, seed);
        repeat.process_once(&mut bits, 10, 30);
        let (origin, len) = sampler.get_part(30);
        repeat_part(
            &mut expected,
            (10 + origin) as usize,
            len as usize,
            (30 - origin - len) as usize,
        );
        assert_eq!(bits, expected);
        assert_eq!(bits[40..], pattern(64)[40..]);
    }
}

#[test]
fn noise_round_draws_one_bit_for_each_bit_of_the_part() {
    for seed in 0..20u64 {
        let mut bits = pattern(64);
        let mut expected = bits.clone();
        let mut noise = config(KorruptionMethod::AddNoise, 1, 4, 12, seed);
        let mut sampler = twin(4, 12, seed);
        noise.process_once(&mut bits, 0, 64);
        let (origin, len) = sampler.get_part(64);
        let drawn = sampler.get_bits(len as usize);
        add_noise(&mut expected, origin as usize, &drawn);
        assert_eq!(bits, expected);
        noise.process_once(&mut bits, 0, 64);
        let (origin, len) = sampler.get_part(64);
        let drawn = sampler.get_bits(len as usize);
        add_noise(&mut expected, origin as usize, &drawn);
        assert_eq!(bits, expected);
    }
}

#[test]
fn rotation_round_samples_its_places_as_a_length() {
    for seed in 0..20u64 {
        let mut right = pattern(64);
        let mut left = right.clone();
        let mut expected_right = right.clone();
        let mut expected_left = right.clone();
        let mut rrotate = config(KorruptionMethod::RRotate, 1, 1, 12, seed);
        let mut lrotate = config(KorruptionMethod::LRotate, 1, 1, 12, seed);
        let mut sampler = twin(1, 12, seed);
        rrotate.process_once(&mut right, 3, 50);
        lrotate.process_once(&mut left, 3, 50);
        let (origin, len) = sampler.get_part(50);
        let places = sampler.get_len();
        rotate_part_right(
            &mut expected_right,
            (3 + origin) as usize,
            len as usize,
            places as usize,
        );
        rotate_part_left(
            &mut expected_left,
            (3 + origin) as usize,
            len as usize,
            places as usize,
        );
        assert_eq!(right, expected_right);
        assert_eq!(left, expected_left);
    }
}

#[test]
fn rotation_with_a_fixed_length_changes_nothing() {
    let mut bits = buffer_of("0000111111110000");
    let mut rrotate = config(KorruptionMethod::RRotate, 3, 8, 8, 2);
    rrotate.process(&mut bits, 0, 8);
    assert_eq!(bits, buffer_of("0000111111110000"));
}

#[test]
fn reverse_and_shorten_rounds_sample_one_part() {
    for seed in 0..20u64 {
        let mut reversed = pattern(48);
        let mut shortened = reversed.clone();
        let mut expected_reversed = reversed.clone();
        let mut expected_shortened = reversed.clone();
        let mut reverse = config(KorruptionMethod::Reverse, 1, 2, 10, seed);
        let mut shorten = config(KorruptionMethod::Shorten, 1, 2, 10, seed);
        let mut sampler = twin(2, 10, seed);
        reverse.process_once(&mut reversed, 6, 30);
        shorten.process_once(&mut shortened, 6, 30);
        let (origin, len) = sampler.get_part(30);
        reverse_part(&mut expected_reversed, (6 + origin) as usize, len as usize);
        remove_part(&mut expected_shortened, (6 + origin) as usize, len as usize);
        assert_eq!(reversed, expected_reversed);
        assert_eq!(shortened, expected_shortened);
        assert_eq!(shortened.len(), 48 - len as usize);
    }
}

#[test]
fn process_runs_all_rounds() {
    for seed in 0..10u64 {
        let mut bits = pattern(80);
        let mut expected = bits.clone();
        let mut flip = config(KorruptionMethod::Flip, 6, 1, 9, seed);
        let mut once = config(KorruptionMethod::Flip, 6, 1, 9, seed);
        flip.process(&mut bits, 10, 60);
        for _ in 0..6 {
            once.process_once(&mut expected, 10, 60);
        }
        assert_eq!(bits, expected);
    }
}

#[test]
fn process_without_rounds_changes_nothing() {
    for method in all_methods() {
        let mut bits = pattern(32);
        let mut none = config(method, 0, 1, 9, 3);
        none.process(&mut bits, 0, 32);
        assert_eq!(bits, pattern(32));
    }
}

#[test]
fn shorten_gets_shorter_by_the_sampled_part_each_round() {
    let mut bits = pattern(100);
    let mut shorten = config(KorruptionMethod::Shorten, 1, 1, 7, 17);
    let mut sampler = twin(1, 7, 17);
    let mut len = 100usize;
    for _ in 0..12 {
        shorten.process_once(&mut bits, 20, 40);
        let region = if len >= 60 {
            40
        } else if len > 20 {
            len - 20
        } else {
            0
        };
        let (_, part) = sampler.get_part(region as u64);
        assert!(bits.len() <= len);
        assert_eq!(bits.len(), len - part as usize);
        len = bits.len();
    }
}

#[test]
fn shorten_stops_when_the_region_is_used_up() {
    let mut bits = pattern(24);
    let mut shorten = config(KorruptionMethod::Shorten, 10, 4, 4, 5);
    shorten.process(&mut bits, 16, 100);
    assert_eq!(bits, pattern(24)[..16].to_vec());
    shorten.process(&mut bits, 16, 100);
    assert_eq!(bits, pattern(24)[..16].to_vec());
}

#[test]
fn every_method_but_shorten_keeps_the_length() {
    for method in all_methods() {
        if method == KorruptionMethod::Shorten {
            continue;
        }
        for seed in 0..8u64 {
            let mut bits = pattern(72);
            let mut made = config(method, 9, 0, 40, seed);
            made.process(&mut bits, 7, 50);
            assert_eq!(bits.len(), 72);
        }
    }
}

#[test]
fn every_method_but_shorten_stays_inside_the_region() {
    for method in all_methods() {
        if method == KorruptionMethod::Shorten {
            continue;
        }
        for seed in 0..8u64 {
            let mut bits = pattern(72);
            let mut made = config(method, 9, 0, 40, seed);
            made.process(&mut bits, 20, 30);
            assert_eq!(bits[..20], pattern(72)[..20]);
            assert_eq!(bits[50..], pattern(72)[50..]);
        }
    }
}

#[test]
fn region_is_cut_off_at_the_end_of_the_buffer() {
    for method in all_methods() {
        let mut bits = pattern(32);
        let mut made = config(method, 5, 1, 8, 6);
        made.process(&mut bits, 24, u64::MAX);
        assert_eq!(bits[..24], pattern(32)[..24]);
        made.process(&mut bits, u64::MAX, u64::MAX);
        assert_eq!(bits[..24], pattern(32)[..24]);
    }
}

#[test]
fn region_beyond_the_buffer_changes_nothing() {
    for method in all_methods() {
        let mut bits = pattern(32);
        let mut made = config(method, 5, 1, 8, 6);
        made.process(&mut bits, 32, 8);
        assert_eq!(bits, pattern(32));
        made.process(&mut bits, 1000, 8);
        assert_eq!(bits, pattern(32));
        let mut empty: Vec<bool> = Vec::new();
        made.process(&mut empty, 0, 8);
        assert!(empty.is_empty());
    }
}

#[test]
fn rounds_draw_alike_whatever_the_buffer() {
    let mut on_empty = config(KorruptionMethod::Zeros, 4, 1, 9, 13);
    let mut on_bits = config(KorruptionMethod::Zeros, 4, 1, 9, 13);
    let mut empty: Vec<bool> = Vec::new();
    let mut bits = pattern(50);
    on_empty.process(&mut empty, 0, 10);
    on_bits.process(&mut bits, 0, 10);
    assert_eq!(on_empty.part_gen.get_origin(1000), on_bits.part_gen.get_origin(1000));
}
