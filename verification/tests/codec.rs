use bitfield::codec;
use bitfield::codec::{byte_size, container_for, NativeWidth};

fn low_bits(n: usize) -> u64 {
    if n >= 64 {
        u64::MAX
    } else {
        (1u64 << n) - 1
    }
}

#[test]
fn every_width_round_trips_at_every_offset_in_a_byte() {
    let patterns = [
        0u64,
        u64::MAX,
        0x0123_4567_89ab_cdef,
        0xfedc_ba98_7654_3210,
        0xaaaa_aaaa_aaaa_aaaa,
        0x5555_5555_5555_5555,
        1,
    ];
    for background in [0x00u8, 0xff] {
        for width in 1..=64usize {
            for offset in 0..=17usize {
                for p in patterns {
                    let v = p & low_bits(width);
                    let mut buf = [background; 12];
                    codec::set(&mut buf, offset, width, v);
                    assert_eq!(codec::get(&buf, offset, width), v);
                }
            }
        }
    }
}

#[test]
fn small_widths_round_trip_every_value() {
    for width in 1..=10usize {
        for offset in [0usize, 1, 3, 7, 8, 13] {
            for v in 0..(1u64 << width) {
                let mut buf = [0x96u8; 4];
                codec::set(&mut buf, offset, width, v);
                assert_eq!(codec::get(&buf, offset, width), v);
            }
        }
    }
}

#[test]
fn fields_are_laid_out_least_significant_byte_first() {
    let mut buf = [0u8; 4];
    codec::set(&mut buf, 0, 16, 0x1234);
    assert_eq!(buf, [0x34, 0x12, 0x00, 0x00]);
    let mut buf = [0u8; 4];
    codec::set(&mut buf, 8, 24, 0xabcdef);
    assert_eq!(buf, [0x00, 0xef, 0xcd, 0xab]);
    let mut buf = [0u8; 8];
    codec::set(&mut buf, 0, 64, 0x0102_0304_0506_0708);
    assert_eq!(buf, [0x08, 0x07, 0x06, 0x05, 0x04, 0x03, 0x02, 0x01]);
    assert_eq!(codec::get(&[0x78, 0x56, 0x34, 0x12], 0, 32), 0x1234_5678);
}

#[test]
fn unaligned_field_is_shifted_into_place() {
    let mut buf = [0u8; 3];
    codec::set(&mut buf, 4, 12, 0xabc);
    assert_eq!(buf, [0xc0, 0xab, 0x00]);
    assert_eq!(codec::get(&buf, 4, 12), 0xabc);
    let mut buf = [0u8; 3];
    codec::set(&mut buf, 3, 9, 0b1_0110_1001);
    assert_eq!(buf, [0b0100_1000, 0b0000_1011, 0x00]);
    assert_eq!(codec::get(&buf, 3, 9), 0b1_0110_1001);
}

#[test]
fn read_gives_zero_above_the_field() {
    let buf = [0xffu8; 9];
    for width in 0..=64usize {
        for offset in 0..8usize {
            assert_eq!(codec::get(&buf, offset, width), low_bits(width));
        }
    }
}

#[test]
fn write_drops_what_does_not_fit_the_field() {
    let mut buf = [0u8; 2];
    codec::set(&mut buf, 2, 5, u64::MAX);
    assert_eq!(buf, [0b0111_1100, 0x00]);
    assert_eq!(codec::get(&buf, 2, 5), 0b11111);
    let mut buf = [0u8; 2];
    codec::set(&mut buf, 0, 4, 0x1f7);
    assert_eq!(buf, [0x07, 0x00]);
}

#[test]
fn field_of_no_bits_reads_zero_and_writes_nothing() {
    let mut buf = [0xa5u8; 2];
    codec::set(&mut buf, 5, 0, u64::MAX);
    assert_eq!(buf, [0xa5, 0xa5]);
    assert_eq!(codec::get(&buf, 5, 0), 0);
    assert_eq!(codec::get(&buf, 16, 0), 0);
}

#[test]
fn write_leaves_the_fields_on_both_sides_alone() {
    let mut buf = [0u8; 12];
    codec::set(&mut buf, 0, 7, 0x55);
    codec::set(&mut buf, 7, 33, 0x1_2345_6789);
    codec::set(&mut buf, 40, 56, 0xfe_dcba_9876_5432);
    assert_eq!(codec::get(&buf, 0, 7), 0x55);
    assert_eq!(codec::get(&buf, 7, 33), 0x1_2345_6789);
    assert_eq!(codec::get(&buf, 40, 56), 0xfe_dcba_9876_5432);
    codec::set(&mut buf, 7, 33, 0);
    assert_eq!(codec::get(&buf, 0, 7), 0x55);
    assert_eq!(codec::get(&buf, 7, 33), 0);
    assert_eq!(codec::get(&buf, 40, 56), 0xfe_dcba_9876_5432);
    codec::set(&mut buf, 7, 33, 0x1_ffff_ffff);
    assert_eq!(codec::get(&buf, 0, 7), 0x55);
    assert_eq!(codec::get(&buf, 40, 56), 0xfe_dcba_9876_5432);
}

#[test]
fn last_field_may_end_with_the_buffer() {
    let mut buf = [0u8; 2];
    codec::set(&mut buf, 13, 3, 0b101);
    assert_eq!(buf, [0x00, 0b1010_0000]);
    assert_eq!(codec::get(&buf, 13, 3), 0b101);
    codec::set(&mut buf, 8, 8, 0xff);
    assert_eq!(codec::get(&buf, 8, 8), 0xff);
}

#[test]
fn byte_size_rounds_up() {
    assert_eq!(byte_size(1), 1);
    assert_eq!(byte_size(7), 1);
    assert_eq!(byte_size(8), 1);
    assert_eq!(byte_size(9), 2);
    assert_eq!(byte_size(16), 2);
    assert_eq!(byte_size(17), 3);
    assert_eq!(byte_size(63), 8);
    assert_eq!(byte_size(64), 8);
}

#[test]
fn container_is_the_narrowest_that_holds_the_field() {
    assert_eq!(container_for(1), NativeWidth::U8);
    assert_eq!(container_for(8), NativeWidth::U8);
    assert_eq!(container_for(9), NativeWidth::U16);
    assert_eq!(container_for(16), NativeWidth::U16);
    assert_eq!(container_for(17), NativeWidth::U32);
    assert_eq!(container_for(32), NativeWidth::U32);
    assert_eq!(container_for(33), NativeWidth::U64);
    assert_eq!(container_for(64), NativeWidth::U64);
    assert_eq!(NativeWidth::U8.bytes(), 1);
    assert_eq!(NativeWidth::U16.bytes(), 2);
    assert_eq!(NativeWidth::U32.bytes(), 4);
    assert_eq!(NativeWidth::U64.bytes(), 8);
}

#[test]
fn value_read_fits_its_container() {
    let buf = [0xffu8; 9];
    for width in 1..=64usize {
        let v = codec::get(&buf, 3, width);
        let bytes = container_for(width).bytes();
        if bytes < 8 {
            assert!(v < 1u64 << (8 * bytes));
        }
    }
}
