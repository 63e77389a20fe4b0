use os1::util::bit_manipulation::BitManipulation;

#[test]
fn u64_set_bits_overwrites_the_field() {
    let mut x: u64 = 0;
    x.set_bits(0, 16, 0xdead);
    assert_eq!(x, 0xdead);

    x.set_bits(16, 24, 0x345678);
    assert_eq!(x, 0x3456_78de_ad);

    // Writing a field again replaces it.
    x.set_bits(0, 16, 0xbeef);
    assert_eq!(x, 0x3456_78be_ef);
}

#[test]
fn u64_set_bits_masks_the_value() {
    let mut x: u64 = 0;
    // Only the low 4 bits of the value land in a 4-bit field.
    x.set_bits(8, 4, 0xff);
    assert_eq!(x, 0xf00);
}

#[test]
fn u64_set_bit_and_get_bits() {
    let mut x: u64 = 0;
    x.set_bit(63, true);
    x.set_bit(0, true);
    assert_eq!(x, 0x8000_0000_0000_0001);

    x.set_bit(63, false);
    assert_eq!(x, 1);

    assert_eq!(x.get_bits(0, 8), 1);
    assert_eq!(x.get_bits(1, 8), 0);
}

#[test]
fn u64_get_bits_extracts_the_field() {
    let x: u64 = 0x1200_0034_5678_dead;
    assert_eq!(x.get_bits(0, 16), 0xdead);
    assert_eq!(x.get_bits(16, 24), 0x345678);
    assert_eq!(x.get_bits(56, 8), 0x12);
}

#[test]
fn u8_fields() {
    let mut x: u8 = 0;
    x.set_bit(7, true);
    assert_eq!(x, 0x80);

    x.set_bits(5, 2, 0b11);
    assert_eq!(x, 0b1110_0000);

    x.set_bit(7, false);
    assert_eq!(x, 0b0110_0000);

    assert_eq!(x.get_bits(5, 2), 0b11);
    assert_eq!(x.get_bits(0, 5), 0);
}
