use chip8::instr::{
    addr_bits, first_byte, first_nib, fourth_nib, least_significant_bit, most_significant_bit,
    second_byte, second_nib, third_nib,
};
use chip8::utils::extract_digits_u8;

// testing opcode helpers
#[test]
fn test_opcode_helpers() {
    let opcode = 0xABCD;
    assert_eq!(first_nib(&opcode), 0xA);
    assert_eq!(second_nib(&opcode), 0xB);
    assert_eq!(third_nib(&opcode), 0xC);
    assert_eq!(fourth_nib(&opcode), 0xD);
    assert_eq!(first_byte(&opcode), 0xAB);
    assert_eq!(second_byte(&opcode), 0xCD);

    let x = 0b00000001;
    assert_eq!(least_significant_bit(&x), 1);
    assert_eq!(most_significant_bit(&x), 0);
    let x = 0b10000001;
    assert_eq!(most_significant_bit(&x), 1);
}

#[test]
fn test_digit_extraction() {
    assert_eq!(extract_digits_u8(123), [1, 2, 3]);
    assert_eq!(extract_digits_u8(254), [2, 5, 4]);
}

#[test]
fn test_digit_extraction_small_values() {
    assert_eq!(extract_digits_u8(5), [5]);
    assert_eq!(extract_digits_u8(10), [1, 0]);
    assert_eq!(extract_digits_u8(0), []);
    assert_eq!(extract_digits_u8(255), [2, 5, 5]);
}

#[test]
fn test_addr_bits() {
    let opcode = 0xABCD;
    assert_eq!(addr_bits(&opcode), 0xBCD);
    assert_eq!(addr_bits(&0x1000), 0x000);
}
