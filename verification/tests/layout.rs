use bitfield::{plan, Layout, LayoutError};

#[test]
fn widths_that_leave_bits_over_are_refused() {
    assert_eq!(plan(&[3, 4]), Err(LayoutError::Unaligned));
    assert_eq!(plan(&[1]), Err(LayoutError::Unaligned));
    assert_eq!(plan(&[64, 64, 1]), Err(LayoutError::Unaligned));
    assert_eq!(plan(&[8, 8, 7]), Err(LayoutError::Unaligned));
}

#[test]
fn widths_that_fill_a_byte_are_planned() {
    assert_eq!(plan(&[3, 5]), Ok(Layout { total_bytes: 1, offsets: vec![0, 3] }));
}

#[test]
fn offsets_are_the_sums_of_the_widths_before() {
    assert_eq!(
        plan(&[1, 1, 3, 3]),
        Ok(Layout { total_bytes: 1, offsets: vec![0, 1, 2, 5] })
    );
    assert_eq!(
        plan(&[1, 3, 4, 24]),
        Ok(Layout { total_bytes: 4, offsets: vec![0, 1, 4, 8] })
    );
    assert_eq!(
        plan(&[64, 64, 9, 7]),
        Ok(Layout { total_bytes: 18, offsets: vec![0, 64, 128, 137] })
    );
}

#[test]
fn no_fields_take_no_bytes() {
    assert_eq!(plan(&[]), Ok(Layout { total_bytes: 0, offsets: vec![] }));
}

#[test]
fn a_single_whole_byte_field_starts_at_zero() {
    assert_eq!(plan(&[8]), Ok(Layout { total_bytes: 1, offsets: vec![0] }));
    assert_eq!(plan(&[64]), Ok(Layout { total_bytes: 8, offsets: vec![0] }));
}

#[test]
fn planned_fields_do_not_overlap() {
    let widths = [5usize, 11, 1, 30, 17];
    let layout = plan(&widths).unwrap();
    assert_eq!(layout.total_bytes, 8);
    for i in 0..widths.len() {
        let end = layout.offsets[i] + widths[i];
        if i + 1 < widths.len() {
            assert_eq!(end, layout.offsets[i + 1]);
        } else {
            assert_eq!(end, 8 * layout.total_bytes);
        }
    }
}
