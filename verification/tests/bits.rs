use korrupt::bits::arr_from_binary;
use korrupt::bits::arr_to_binary;
use korrupt::bits::from_binary;
use korrupt::bits::to_binary;
use korrupt::error::LengthError;

#[test]
fn byte_unpacks_most_significant_bit_first() {
    assert_eq!(
        to_binary(0b1011_0100),
        vec![true, false, true, true, false, true, false, false]
    );
    assert_eq!(to_binary(0), vec![false; 8]);
    assert_eq!(to_binary(255), vec![true; 8]);
    assert_eq!(
        to_binary(1),
        vec![false, false, false, false, false, false, false, true]
    );
}

#[test]
fn eight_bits_pack_into_a_byte() {
    let bits = [true, false, true, true, false, true, false, false];
    assert_eq!(from_binary(&bits), 0b1011_0100);
    let longer = [false, false, false, false, true, true, true, true, true, true];
    assert_eq!(from_binary(&longer), 0x0F);
}

#[test]
fn bytes_round_trip_through_bits() {
    let bytes: Vec<u8> = (0..=255).collect();
    let bits = arr_to_binary(bytes.clone());
    assert_eq!(bits.len(), 8 * 256);
    assert_eq!(arr_from_binary(bits), Ok(bytes));
    assert_eq!(arr_from_binary(arr_to_binary(vec![])), Ok(vec![]));
}

#[test]
fn ragged_buffer_is_refused() {
    assert_eq!(
        arr_from_binary(vec![true; 12]),
        Err(LengthError { bit_len: 12 })
    );
    assert_eq!(
        arr_from_binary(vec![false; 7]),
        Err(LengthError { bit_len: 7 })
    );
}
