use pngme::crc::crc;
use pngme::crc::make_crc_table;
use pngme::crc::update_crc;

#[test]
fn test_crc_check_value() {
    // The standard CRC-32/ISO-HDLC check value.
    assert_eq!(crc("123456789".as_bytes()), 0xCBF43926);
}

#[test]
fn test_crc_empty() {
    assert_eq!(crc(&[]), 0);
}

#[test]
fn test_crc_known_answer() {
    let mut bytes = "RuSt".as_bytes().to_vec();
    bytes.extend_from_slice("This is where your secret message will be!".as_bytes());
    assert_eq!(crc(&bytes), 2882656334);
}

#[test]
fn test_crc_single_bit_sensitivity() {
    let bytes = "123456789".as_bytes().to_vec();
    let reference = crc(&bytes);
    for i in 0..bytes.len() {
        for j in 0..8 {
            let mut corrupted = bytes.clone();
            corrupted[i] ^= 1u8 << j;
            assert_ne!(crc(&corrupted), reference);
        }
    }
}

#[test]
fn test_update_crc_folds_bytes() {
    let table = make_crc_table();
    let folded = update_crc(&table, 0xffffffff, "123456789".as_bytes());
    assert_eq!(folded ^ 0xffffffff, 0xCBF43926);
}
