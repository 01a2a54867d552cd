use bitfield::{get_byte, set_byte};

fn low_bits(n: usize) -> u8 {
    if n >= 8 {
        0xff
    } else {
        (1u8 << n) - 1
    }
}

fn bit(buf: &[u8], i: usize) -> bool {
    (buf[i / 8] >> (i % 8)) & 1 == 1
}

#[test]
fn two_nibbles_share_a_byte() {
    let mut buf = [0u8; 1];
    set_byte(&mut buf, 0, 0b1111, 4);
    set_byte(&mut buf, 4, 0b0000, 4);
    assert_eq!(get_byte(&buf, 0, 4), 0b1111);
    assert_eq!(get_byte(&buf, 4, 4), 0);
    assert_eq!(buf[0], 0x0f);
}

#[test]
fn full_byte_round_trips_all_values() {
    for v in 0..=255u8 {
        let mut buf = [0u8; 1];
        set_byte(&mut buf, 0, v, 8);
        assert_eq!(buf[0], v);
        assert_eq!(get_byte(&buf, 0, 8), v);
        let mut full = [0xffu8; 1];
        set_byte(&mut full, 0, v, 8);
        assert_eq!(full[0], v);
        assert_eq!(get_byte(&full, 0, 8), v);
    }
}

#[test]
fn cross_byte_field_round_trips_and_keeps_neighbours() {
    for background in [0x00u8, 0xff, 0xa5, 0x5a] {
        for v in 0..32u8 {
            let mut buf = [background; 2];
            set_byte(&mut buf, 6, v, 5);
            assert_eq!(get_byte(&buf, 6, 5), v);
            // bits 0 to 5 of byte 0 and bits 3 to 7 of byte 1 are as they were
            assert_eq!(buf[0] & 0b0011_1111, background & 0b0011_1111);
            assert_eq!(buf[1] & 0b1111_1000, background & 0b1111_1000);
            // the field itself: two bits at the top of byte 0, three at the foot of byte 1
            assert_eq!(buf[0] >> 6, v & 0b11);
            assert_eq!(buf[1] & 0b111, v >> 2);
        }
    }
}

#[test]
fn read_spanning_two_bytes_has_the_low_bits_from_the_first() {
    let buf = [0b1100_0000u8, 0b0000_0101];
    // bits 6, 7 of byte 0 are 1, 1; bits 0, 1, 2 of byte 1 are 1, 0, 1
    assert_eq!(get_byte(&buf, 6, 5), 0b10111);
    assert_eq!(get_byte(&buf, 7, 2), 0b11);
    assert_eq!(get_byte(&buf, 7, 3), 0b011);
    assert_eq!(get_byte(&buf, 4, 8), 0b0101_1100);
}

#[test]
fn read_within_a_byte_shifts_and_masks() {
    let buf = [0b1011_0110u8];
    assert_eq!(get_byte(&buf, 0, 1), 0);
    assert_eq!(get_byte(&buf, 1, 2), 0b11);
    assert_eq!(get_byte(&buf, 2, 3), 0b101);
    assert_eq!(get_byte(&buf, 4, 4), 0b1011);
    assert_eq!(get_byte(&buf, 7, 1), 1);
    assert_eq!(get_byte(&buf, 0, 8), 0b1011_0110);
}

#[test]
fn read_in_a_later_byte_uses_the_absolute_bit_index() {
    let buf = [0x00u8, 0x00, 0b0011_1000];
    assert_eq!(get_byte(&buf, 19, 3), 0b111);
    assert_eq!(get_byte(&buf, 16, 8), 0b0011_1000);
    assert_eq!(get_byte(&buf, 12, 8), 0b1000_0000);
}

#[test]
fn write_keeps_the_bits_above_the_field_in_its_byte() {
    let mut buf = [0xffu8];
    set_byte(&mut buf, 0, 0b000, 3);
    assert_eq!(buf[0], 0b1111_1000);
    let mut buf = [0xffu8];
    set_byte(&mut buf, 2, 0b000, 3);
    assert_eq!(buf[0], 0b1110_0011);
    let mut buf = [0x00u8];
    set_byte(&mut buf, 2, 0b101, 3);
    assert_eq!(buf[0], 0b0001_0100);
}

#[test]
fn write_that_ends_at_the_byte_boundary_leaves_nothing_above() {
    let mut buf = [0xffu8, 0xff];
    set_byte(&mut buf, 5, 0b010, 3);
    assert_eq!(buf, [0b0101_1111, 0xff]);
    let mut buf = [0x00u8, 0x00];
    set_byte(&mut buf, 5, 0b111, 3);
    assert_eq!(buf, [0b1110_0000, 0x00]);
}

#[test]
fn write_drops_the_bits_of_the_value_above_its_length() {
    let mut buf = [0x00u8];
    set_byte(&mut buf, 2, 0xff, 3);
    assert_eq!(buf[0], 0b0001_1100);
    let mut buf = [0x00u8, 0x00];
    set_byte(&mut buf, 6, 0xff, 5);
    assert_eq!(buf, [0b1100_0000, 0b0000_0111]);
    let mut buf = [0x00u8];
    set_byte(&mut buf, 0, 0b10, 1);
    assert_eq!(buf[0], 0);
}

#[test]
fn write_merges_the_two_parts_of_the_first_byte() {
    // the low bits that stay and the new high bits are joined, not intersected
    let mut buf = [0b0010_1010u8, 0x00];
    set_byte(&mut buf, 6, 0b11111, 5);
    assert_eq!(buf, [0b1110_1010, 0b0000_0111]);
}

#[test]
fn every_position_and_length_round_trips_without_touching_other_bits() {
    for background in [0x00u8, 0xff, 0x3c] {
        for idx in 0..16usize {
            for len in 1..=8usize {
                for v in 0..=low_bits(len) {
                    let before = [background; 3];
                    let mut buf = before;
                    set_byte(&mut buf, idx, v, len);
                    assert_eq!(get_byte(&buf, idx, len), v);
                    for i in 0..24 {
                        if i < idx || i >= idx + len {
                            assert_eq!(bit(&buf, i), bit(&before, i));
                        } else {
                            assert_eq!(bit(&buf, i), (v >> (i - idx)) & 1 == 1);
                        }
                    }
                }
            }
        }
    }
}

#[test]
fn read_is_untouched_by_writes_to_fields_beside_it() {
    let mut buf = [0u8; 2];
    set_byte(&mut buf, 3, 0b10110, 5);
    set_byte(&mut buf, 0, 0b111, 3);
    set_byte(&mut buf, 8, 0xff, 8);
    assert_eq!(get_byte(&buf, 3, 5), 0b10110);
    set_byte(&mut buf, 0, 0b000, 3);
    set_byte(&mut buf, 8, 0x00, 8);
    assert_eq!(get_byte(&buf, 3, 5), 0b10110);
    assert_eq!(buf, [0b1011_0000, 0x00]);
}
