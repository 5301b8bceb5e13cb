use binary_processor::{Channel, DataType, Schema};

fn schema_of_kinds(kinds: &[DataType]) -> Schema {
    Schema {
        channels: kinds
            .iter()
            .enumerate()
            .map(|(i, k)| Channel { name: format!("ch_{}", i), data_type: *k })
            .collect(),
    }
}

#[test]
fn widths_of_the_three_kinds() {
    assert_eq!(DataType::Bit.size(), 1);
    assert_eq!(DataType::Int.size(), 4);
    assert_eq!(DataType::Float.size(), 8);
}

#[test]
fn row_size_of_an_empty_schema_is_the_timestamp() {
    let schema = schema_of_kinds(&[]);
    assert_eq!(schema.row_size(), 8);
    assert_eq!(schema.checked_row_size(), Some(8));
}

#[test]
fn row_size_adds_the_widths_in_any_order() {
    assert_eq!(schema_of_kinds(&[DataType::Bit]).row_size(), 9);
    assert_eq!(schema_of_kinds(&[DataType::Int]).row_size(), 12);
    assert_eq!(schema_of_kinds(&[DataType::Float]).row_size(), 16);
    assert_eq!(
        schema_of_kinds(&[DataType::Float, DataType::Bit, DataType::Int, DataType::Bit]).row_size(),
        8 + 8 + 1 + 4 + 1
    );
}

#[test]
fn row_size_of_a_thousand_channels() {
    let kinds: Vec<DataType> = (0..1000)
        .map(|i| match i % 3 {
            0 => DataType::Bit,
            1 => DataType::Int,
            _ => DataType::Float,
        })
        .collect();
    let schema = schema_of_kinds(&kinds);
    // 334 bits, 333 ints, 333 floats
    assert_eq!(schema.row_size(), 8 + 334 + 333 * 4 + 333 * 8);
    assert_eq!(schema.checked_row_size(), Some(4338));
}

#[test]
fn kinds_compare_by_variant() {
    assert_eq!(DataType::Bit, DataType::Bit);
    assert_ne!(DataType::Bit, DataType::Int);
    assert_ne!(DataType::Int, DataType::Float);
}

#[test]
fn a_schema_keeps_the_order_of_its_channels() {
    let schema = schema_of_kinds(&[DataType::Int, DataType::Bit]);
    let copy = schema.clone();
    assert_eq!(copy.channels.len(), 2);
    assert_eq!(copy.channels[0].name, "ch_0");
    assert_eq!(copy.channels[0].data_type, DataType::Int);
    assert_eq!(copy.channels[1].name, "ch_1");
    assert_eq!(copy.channels[1].data_type, DataType::Bit);
}
