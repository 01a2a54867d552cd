use bitfield::{DecodeError, FieldDescriptor, FieldKind, LayoutError, Schema, SchemaError};

fn entry_fields() -> Vec<FieldDescriptor> {
    vec![
        FieldDescriptor::boolean(),
        FieldDescriptor::enumeration(&[0, 1]).unwrap(),
        FieldDescriptor::enumeration(&[0, 1, 2, 3, 4, 5, 6, 7]).unwrap(),
        FieldDescriptor::unsigned(3).unwrap(),
    ]
}

#[test]
fn unsigned_field_is_one_to_sixty_four_bits_wide() {
    assert_eq!(FieldDescriptor::unsigned(0), None);
    assert_eq!(FieldDescriptor::unsigned(65), None);
    assert_eq!(FieldDescriptor::unsigned(usize::MAX), None);
    assert_eq!(
        FieldDescriptor::unsigned(1),
        Some(FieldDescriptor { width: 1, kind: FieldKind::Unsigned })
    );
    assert_eq!(
        FieldDescriptor::unsigned(64),
        Some(FieldDescriptor { width: 64, kind: FieldKind::Unsigned })
    );
}

#[test]
fn boolean_field_is_one_bit_wide() {
    let d = FieldDescriptor::boolean();
    assert_eq!(d.width, 1);
    assert_eq!(d.kind, FieldKind::Boolean);
    assert_eq!(d.size(), 1);
}

#[test]
fn enumeration_field_is_as_wide_as_its_variants_need() {
    let d = FieldDescriptor::enumeration(&[0, 1, 2, 3]).unwrap();
    assert_eq!(d.width, 2);
    match d.kind {
        FieldKind::Enumeration(e) => {
            assert_eq!(e.variants, 4);
            assert_eq!(e.bits, 2);
        }
        _ => panic!("an enumeration was registered"),
    }
    assert_eq!(d.size(), 1);
}

#[test]
fn enumeration_field_passes_on_the_refusal() {
    assert_eq!(
        FieldDescriptor::enumeration(&[0, 1, 2]),
        Err(SchemaError::VariantCountNotPowerOfTwo)
    );
    assert_eq!(
        FieldDescriptor::enumeration(&[0, 7]),
        Err(SchemaError::DiscriminantOutOfDeclaredRange)
    );
}

#[test]
fn field_size_is_that_of_its_native_integer() {
    assert_eq!(FieldDescriptor::unsigned(3).unwrap().size(), 1);
    assert_eq!(FieldDescriptor::unsigned(9).unwrap().size(), 2);
    assert_eq!(FieldDescriptor::unsigned(24).unwrap().size(), 4);
    assert_eq!(FieldDescriptor::unsigned(33).unwrap().size(), 8);
}

#[test]
fn schema_that_leaves_bits_over_does_not_exist() {
    let fields = vec![
        FieldDescriptor::unsigned(3).unwrap(),
        FieldDescriptor::unsigned(4).unwrap(),
    ];
    assert_eq!(Schema::new(fields).err(), Some(LayoutError::Unaligned));
}

#[test]
fn schema_knows_where_its_fields_start() {
    let schema = Schema::new(entry_fields()).unwrap();
    assert_eq!(schema.len(), 4);
    assert_eq!(schema.total_bytes(), 1);
    assert_eq!(schema.offset(0), 0);
    assert_eq!(schema.offset(1), 1);
    assert_eq!(schema.offset(2), 2);
    assert_eq!(schema.offset(3), 5);
    assert_eq!(schema.offset(4), 8);
    assert_eq!(schema.field(3), FieldDescriptor { width: 3, kind: FieldKind::Unsigned });
}

#[test]
fn new_buffer_is_all_zero() {
    let fields = vec![
        FieldDescriptor::unsigned(13).unwrap(),
        FieldDescriptor::boolean(),
        FieldDescriptor::unsigned(64).unwrap(),
        FieldDescriptor::unsigned(2).unwrap(),
    ];
    let schema = Schema::new(fields).unwrap();
    let buf = schema.new_buffer();
    assert_eq!(buf, vec![0u8; 10]);
    for i in 0..schema.len() {
        assert_eq!(schema.get(&buf, i), Ok(0));
    }
}

#[test]
fn schema_fields_round_trip_and_leave_each_other_alone() {
    let fields = vec![
        FieldDescriptor::unsigned(13).unwrap(),
        FieldDescriptor::boolean(),
        FieldDescriptor::unsigned(64).unwrap(),
        FieldDescriptor::enumeration(&[0, 1, 2, 3]).unwrap(),
    ];
    let schema = Schema::new(fields).unwrap();
    let mut buf = schema.new_buffer();
    let values = [0x1abcu64, 1, 0xdead_beef_0bad_f00d, 2];
    for i in 0..4 {
        schema.set(&mut buf, i, values[i]);
        for j in 0..4 {
            let expected: Result<u64, DecodeError> = Ok(if j <= i { values[j] } else { 0 });
            assert_eq!(schema.get(&buf, j), expected);
        }
    }
    schema.set(&mut buf, 2, 0);
    assert_eq!(schema.get(&buf, 0), Ok(0x1abc));
    assert_eq!(schema.get(&buf, 1), Ok(1));
    assert_eq!(schema.get(&buf, 2), Ok(0));
    assert_eq!(schema.get(&buf, 3), Ok(2));
}

#[test]
fn schema_packs_the_first_field_lowest() {
    let schema = Schema::new(entry_fields()).unwrap();
    let mut buf = schema.new_buffer();
    schema.set(&mut buf, 0, 1);
    schema.set(&mut buf, 1, 1);
    schema.set(&mut buf, 2, 0b110);
    schema.set(&mut buf, 3, 0);
    assert_eq!(buf, vec![0b000_110_1_1]);
    assert_eq!(schema.get(&buf, 0), Ok(1));
    assert_eq!(schema.get(&buf, 1), Ok(1));
    assert_eq!(schema.get(&buf, 2), Ok(0b110));
    assert_eq!(schema.get(&buf, 3), Ok(0));
}

#[test]
fn schema_write_drops_what_does_not_fit_the_field() {
    let schema = Schema::new(entry_fields()).unwrap();
    let mut buf = schema.new_buffer();
    schema.set(&mut buf, 2, 0xff);
    assert_eq!(buf, vec![0b0001_1100]);
    assert_eq!(schema.get(&buf, 2), Ok(7));
}

#[test]
fn empty_schema_has_an_empty_buffer() {
    let schema = Schema::new(Vec::new()).unwrap();
    assert_eq!(schema.len(), 0);
    assert_eq!(schema.total_bytes(), 0);
    assert_eq!(schema.new_buffer(), Vec::<u8>::new());
}
