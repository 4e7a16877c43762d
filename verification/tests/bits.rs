use albatross_chain::bigint::{big_int_from_bytes_be, limbs_from_bytes_be};
use albatross_chain::bits::{
    byte_from_be_bits, byte_from_le_bits, byte_to_le_bits, bytes_be_from_le_bits, bytes_to_bits,
};
use albatross_chain::protocol::Protocol;

#[test]
fn bytes_to_bits_writes_the_highest_bit_first() {
    assert_eq!(bytes_to_bits(&[]), Vec::<bool>::new());
    assert_eq!(
        bytes_to_bits(&[0b1000_0001]),
        vec![true, false, false, false, false, false, false, true]
    );
    let bits = bytes_to_bits(&[0x01, 0xF0]);
    assert_eq!(bits.len(), 16);
    assert_eq!(
        bits,
        vec![
            false, false, false, false, false, false, false, true, true, true, true, true, false,
            false, false, false
        ]
    );
}

#[test]
fn byte_from_le_bits_reads_the_lowest_bit_first() {
    assert_eq!(byte_from_le_bits(&[]), 0);
    assert_eq!(byte_from_le_bits(&[true]), 1);
    assert_eq!(byte_from_le_bits(&[false, true]), 2);
    assert_eq!(byte_from_le_bits(&[true, false, true, true]), 13);
    assert_eq!(byte_from_le_bits(&[true; 8]), 255);
    assert_eq!(
        byte_from_le_bits(&[false, false, false, false, false, false, false, true]),
        128
    );
}

#[test]
fn byte_from_be_bits_reads_the_highest_bit_first() {
    assert_eq!(byte_from_be_bits(&[]), 0);
    assert_eq!(byte_from_be_bits(&[true]), 1);
    assert_eq!(byte_from_be_bits(&[true, false]), 2);
    assert_eq!(byte_from_be_bits(&[true, false, true, true]), 11);
    assert_eq!(byte_from_be_bits(&[true; 8]), 255);
    assert_eq!(
        byte_from_be_bits(&[true, false, false, false, false, false, false, false]),
        128
    );
}

#[test]
fn byte_to_le_bits_gives_eight_bits() {
    assert_eq!(byte_to_le_bits(0), vec![false; 8]);
    assert_eq!(
        byte_to_le_bits(1),
        vec![true, false, false, false, false, false, false, false]
    );
    assert_eq!(
        byte_to_le_bits(0b1010_0110),
        vec![false, true, true, false, false, true, false, true]
    );
    assert_eq!(byte_to_le_bits(255), vec![true; 8]);
}

#[test]
fn byte_round_trips_through_bits() {
    for byte in 0..=255u8 {
        assert_eq!(byte_from_le_bits(&byte_to_le_bits(byte)), byte);
        let mut be = byte_to_le_bits(byte);
        be.reverse();
        assert_eq!(byte_from_be_bits(&be), byte);
        assert_eq!(bytes_to_bits(&[byte]), be);
    }
}

#[test]
fn bytes_be_from_le_bits_puts_the_last_group_first() {
    assert_eq!(bytes_be_from_le_bits(&[]), Vec::<u8>::new());
    let mut bits = byte_to_le_bits(0x01);
    bits.extend(byte_to_le_bits(0x02));
    bits.extend(byte_to_le_bits(0xFF));
    assert_eq!(bytes_be_from_le_bits(&bits), vec![0xFF, 0x02, 0x01]);
}

#[test]
fn limbs_are_read_from_the_end() {
    let mut bytes = [0u8; 96];
    for (i, byte) in bytes.iter_mut().enumerate() {
        *byte = i as u8;
    }
    let limbs = limbs_from_bytes_be(&bytes);
    assert_eq!(limbs[11], 0x0001_0203_0405_0607);
    assert_eq!(limbs[10], 0x0809_0A0B_0C0D_0E0F);
    assert_eq!(limbs[0], 0x5859_5A5B_5C5D_5E5F);
}

#[test]
fn big_integer_holds_the_limbs() {
    let mut bytes = [0u8; 96];
    bytes[95] = 1;
    bytes[87] = 2;
    bytes[0] = 0x80;
    let value = big_int_from_bytes_be(&bytes);
    assert_eq!(value.0[0], 1);
    assert_eq!(value.0[1], 2);
    assert_eq!(value.0[11], 0x8000_0000_0000_0000);
    assert_eq!(value, ark_ff::BigInteger768::new(limbs_from_bytes_be(&bytes)));
    assert_ne!(value, ark_ff::BigInteger768::new([0u64; 12]));
}

#[test]
fn protocols_have_their_numbers() {
    assert_eq!(Protocol::Dumb.to_u8(), 0);
    assert_eq!(Protocol::Wss.to_u8(), 1);
    assert_eq!(Protocol::Rtc.to_u8(), 2);
    assert_eq!(Protocol::Ws.to_u8(), 4);
    assert_eq!(Protocol::from_u8(0), Some(Protocol::Dumb));
    assert_eq!(Protocol::from_u8(1), Some(Protocol::Wss));
    assert_eq!(Protocol::from_u8(2), Some(Protocol::Rtc));
    assert_eq!(Protocol::from_u8(4), Some(Protocol::Ws));
    assert_eq!(Protocol::from_u8(3), None);
    assert_eq!(Protocol::from_u8(5), None);
    assert_eq!(Protocol::from_u8(255), None);
    assert!(Protocol::Dumb < Protocol::Wss);
    assert!(Protocol::Wss < Protocol::Rtc);
    assert!(Protocol::Rtc < Protocol::Ws);
}

#[test]
fn bytes_and_bits_undo_each_other_up_to_reversal() {
    let bits: Vec<bool> = (0..40).map(|i| i % 3 == 0 || i % 7 == 2).collect();
    let mut reversed = bits.clone();
    reversed.reverse();
    assert_eq!(bytes_to_bits(&bytes_be_from_le_bits(&bits)), reversed);
    assert_eq!(bytes_to_bits(&bytes_be_from_le_bits(&[])), Vec::<bool>::new());
}
