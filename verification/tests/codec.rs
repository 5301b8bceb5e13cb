use binary_processor::codec::{
    count_rows, decode_row, decode_row_into, decode_rows, decode_timestamps, empty_columns,
    row_start,
};
use binary_processor::encode::encode_value;
use binary_processor::{
    encode_row, encode_rows, Channel, ChannelData, DataType, Row, Schema, Value,
};

fn codec_schema(kinds: &[DataType]) -> Schema {
    Schema {
        channels: kinds
            .iter()
            .enumerate()
            .map(|(i, k)| Channel { name: format!("ch_{}", i), data_type: *k })
            .collect(),
    }
}

fn codec_rows(kinds: &[DataType], n: usize) -> Vec<Row> {
    let mut state: u64 = 0x9E37_79B9_7F4A_7C15;
    let mut next = move || {
        state = state.wrapping_mul(6364136223846793005).wrapping_add(1442695040888963407);
        state
    };
    (0..n)
        .map(|r| Row {
            timestamp: (1_000.0 + r as f64).to_bits(),
            values: kinds
                .iter()
                .map(|k| match k {
                    DataType::Bit => Value::Bit((next() >> 40) as u8 & 1),
                    DataType::Int => Value::Int((next() >> 16) as i32),
                    DataType::Float => Value::Float(next()),
                })
                .collect(),
        })
        .collect()
}

#[test]
fn an_int_is_written_low_byte_first() {
    let mut out = Vec::new();
    encode_value(Value::Int(0x0403_0201), &mut out);
    assert_eq!(out, vec![0x01, 0x02, 0x03, 0x04]);
}

#[test]
fn a_negative_int_is_written_in_twos_complement() {
    let mut out = vec![0xEE];
    encode_value(Value::Int(-5), &mut out);
    assert_eq!(out, vec![0xEE, 0xFB, 0xFF, 0xFF, 0xFF]);
    let mut low = Vec::new();
    encode_value(Value::Int(i32::MIN), &mut low);
    assert_eq!(low, vec![0x00, 0x00, 0x00, 0x80]);
}

#[test]
fn a_float_is_written_as_its_bit_pattern_low_byte_first() {
    let mut out = Vec::new();
    encode_value(Value::Float(2.5f64.to_bits()), &mut out);
    // 2.5 is 0x4004_0000_0000_0000
    assert_eq!(out, vec![0, 0, 0, 0, 0, 0, 0x04, 0x40]);
    let mut other = Vec::new();
    encode_value(Value::Float(0x0807_0605_0403_0201), &mut other);
    assert_eq!(other, vec![1, 2, 3, 4, 5, 6, 7, 8]);
}

#[test]
fn a_bit_is_one_byte() {
    let mut out = Vec::new();
    encode_value(Value::Bit(1), &mut out);
    encode_value(Value::Bit(0), &mut out);
    assert_eq!(out, vec![1, 0]);
}

#[test]
fn a_row_is_the_timestamp_then_the_values() {
    let row = Row {
        timestamp: 1000.0f64.to_bits(),
        values: vec![Value::Bit(1), Value::Int(-5), Value::Float(2.5f64.to_bits())],
    };
    let mut out = Vec::new();
    encode_row(&row, &mut out);
    let mut expected = 1000.0f64.to_le_bytes().to_vec();
    expected.push(1);
    expected.extend_from_slice(&(-5i32).to_le_bytes());
    expected.extend_from_slice(&2.5f64.to_le_bytes());
    assert_eq!(out.len(), 21);
    assert_eq!(out, expected);
}

#[test]
fn encoding_appends_and_keeps_what_was_there() {
    let rows = codec_rows(&[DataType::Int], 2);
    let mut out = vec![9, 9, 9];
    encode_row(&rows[0], &mut out);
    encode_row(&rows[1], &mut out);
    assert_eq!(&out[..3], &[9, 9, 9]);
    assert_eq!(&out[3..], &encode_rows(&rows)[..]);
}

#[test]
fn hand_written_bytes_decode_to_the_expected_values() {
    let schema = codec_schema(&[DataType::Int, DataType::Bit, DataType::Float]);
    let mut data = Vec::new();
    data.extend_from_slice(&[0, 0, 0, 0, 0, 0x40, 0x8F, 0x40]); // 1000.0
    data.extend_from_slice(&[0xFB, 0xFF, 0xFF, 0xFF]); // -5
    data.push(1);
    data.extend_from_slice(&[0, 0, 0, 0, 0, 0, 0x04, 0x40]); // 2.5
    assert_eq!(data.len(), schema.row_size());
    let row = decode_row(&data, &schema, 0);
    assert_eq!(f64::from_bits(row.timestamp), 1000.0);
    assert_eq!(row.values, vec![Value::Int(-5), Value::Bit(1), Value::Float(2.5f64.to_bits())]);
    let cols = decode_rows(&data, &schema, 0, 1);
    assert_eq!(
        format!("{:?}", cols),
        format!("[Int([-5]), Bit([1]), Float([{}])]", 2.5f64.to_bits())
    );
    assert_eq!(decode_timestamps(&data, &schema, 0, 1), vec![1000.0f64.to_bits()]);
}

#[test]
fn each_row_decodes_to_what_was_encoded() {
    let kinds = [DataType::Float, DataType::Bit, DataType::Bit, DataType::Int];
    let schema = codec_schema(&kinds);
    let rows = codec_rows(&kinds, 17);
    let data = encode_rows(&rows);
    assert_eq!(count_rows(&data, &schema), 17);
    for (r, row) in rows.iter().enumerate() {
        let decoded = decode_row(&data, &schema, r);
        assert_eq!(decoded.timestamp, row.timestamp);
        assert_eq!(decoded.values, row.values);
    }
}

#[test]
fn extreme_values_survive_bit_for_bit() {
    let kinds = [DataType::Int, DataType::Float, DataType::Bit];
    let schema = codec_schema(&kinds);
    let floats = [
        f64::NAN.to_bits(),
        0x7FF0_0000_0000_0001, // a signalling NaN
        f64::INFINITY.to_bits(),
        f64::NEG_INFINITY.to_bits(),
        (-0.0f64).to_bits(),
        f64::MIN_POSITIVE.to_bits(),
        u64::MAX,
        0,
    ];
    let ints = [i32::MIN, -1, 0, 1, i32::MAX, 0x0102_0304, -0x0102_0304, 255];
    let rows: Vec<Row> = (0..8)
        .map(|i| Row {
            timestamp: floats[7 - i],
            values: vec![Value::Int(ints[i]), Value::Float(floats[i]), Value::Bit(255 - i as u8)],
        })
        .collect();
    let data = encode_rows(&rows);
    let cols = decode_rows(&data, &schema, 0, 8);
    match (&cols[0], &cols[1], &cols[2]) {
        (ChannelData::Int(i), ChannelData::Float(f), ChannelData::Bit(b)) => {
            assert_eq!(i, &ints.to_vec());
            assert_eq!(f, &floats.to_vec());
            assert_eq!(b, &vec![255u8, 254, 253, 252, 251, 250, 249, 248]);
        }
        other => panic!("unexpected columns {:?}", other),
    }
    let mut stamps = floats.to_vec();
    stamps.reverse();
    assert_eq!(decode_timestamps(&data, &schema, 0, 8), stamps);
}

#[test]
fn a_range_of_rows_holds_only_those_rows() {
    let kinds = [DataType::Int];
    let schema = codec_schema(&kinds);
    let rows: Vec<Row> = (0..10)
        .map(|i| Row { timestamp: i as u64, values: vec![Value::Int(i * 11)] })
        .collect();
    let data = encode_rows(&rows);
    assert_eq!(format!("{:?}", decode_rows(&data, &schema, 3, 6)), "[Int([33, 44, 55])]");
    assert_eq!(format!("{:?}", decode_rows(&data, &schema, 4, 4)), "[Int([])]");
    assert_eq!(decode_timestamps(&data, &schema, 8, 10), vec![8, 9]);
    assert_eq!(decode_timestamps(&data, &schema, 10, 10), Vec::<u64>::new());
}

#[test]
fn rows_start_at_multiples_of_the_row_size() {
    let kinds = [DataType::Bit, DataType::Float];
    let schema = codec_schema(&kinds);
    let data = encode_rows(&codec_rows(&kinds, 5));
    assert_eq!(schema.row_size(), 17);
    assert_eq!(row_start(&data, &schema, 0), 0);
    assert_eq!(row_start(&data, &schema, 1), 17);
    assert_eq!(row_start(&data, &schema, 4), 68);
}

#[test]
fn trailing_bytes_are_not_counted_as_a_row() {
    let kinds = [DataType::Int, DataType::Bit];
    let schema = codec_schema(&kinds);
    let row_size = schema.row_size();
    assert_eq!(row_size, 13);
    let whole = encode_rows(&codec_rows(&kinds, 6));
    for extra in 0..row_size {
        let mut data = whole.clone();
        data.extend(std::iter::repeat(0x5A).take(extra));
        assert_eq!(count_rows(&data, &schema), 6, "with {} extra bytes", extra);
    }
    let mut data = whole.clone();
    data.extend(std::iter::repeat(0x5A).take(row_size));
    assert_eq!(count_rows(&data, &schema), 7);
    assert_eq!(count_rows(&whole[..row_size - 1], &schema), 0);
    assert_eq!(count_rows(&[], &schema), 0);
}

#[test]
fn a_partial_row_can_be_completed_by_one_more_byte() {
    // A file that ends one byte short of a row gains a row with one byte
    // more: extra bytes are dropped only while they do not complete a row.
    let kinds = [DataType::Int, DataType::Bit];
    let schema = codec_schema(&kinds);
    let whole = encode_rows(&codec_rows(&kinds, 2));
    assert_eq!(count_rows(&whole[..25], &schema), 1);
    assert_eq!(count_rows(&whole[..26], &schema), 2);
}

#[test]
fn empty_columns_have_the_kinds_of_the_schema() {
    let schema = codec_schema(&[DataType::Float, DataType::Int, DataType::Bit]);
    let cols = empty_columns(&schema, 4);
    assert_eq!(format!("{:?}", cols), "[Float([]), Int([]), Bit([])]");
    assert_eq!(cols.iter().map(|c| c.len()).collect::<Vec<_>>(), vec![0, 0, 0]);
    assert!(empty_columns(&codec_schema(&[]), 4).is_empty());
}

#[test]
fn a_schema_without_channels_still_has_timestamps() {
    let schema = codec_schema(&[]);
    let rows: Vec<Row> =
        (0..4).map(|i| Row { timestamp: 100 + i as u64, values: vec![] }).collect();
    let data = encode_rows(&rows);
    assert_eq!(data.len(), 32);
    assert_eq!(count_rows(&data, &schema), 4);
    assert!(decode_rows(&data, &schema, 0, 4).is_empty());
    assert_eq!(decode_timestamps(&data, &schema, 0, 4), vec![100, 101, 102, 103]);
}

#[test]
fn buffers_join_in_order() {
    let mut a = ChannelData::Int(vec![1, 2]);
    a.append(ChannelData::Int(vec![3]));
    a.append(ChannelData::Int(vec![]));
    assert_eq!(format!("{:?}", a), "Int([1, 2, 3])");
    assert_eq!(a.len(), 3);
    let mut b = ChannelData::with_capacity(DataType::Float, 8);
    assert_eq!(b.len(), 0);
    b.append(ChannelData::Float(vec![7, 8]));
    assert_eq!(format!("{:?}", b), "Float([7, 8])");
    let mut c = ChannelData::with_capacity(DataType::Bit, 0);
    c.append(ChannelData::Bit(vec![1, 0, 1]));
    assert_eq!(format!("{:?}", c), "Bit([1, 0, 1])");
    assert_eq!(c.len(), 3);
}

#[test]
fn rows_can_be_added_to_buffers_one_by_one() {
    let kinds = [DataType::Bit, DataType::Int];
    let schema = codec_schema(&kinds);
    let rows = vec![
        Row { timestamp: 1, values: vec![Value::Bit(1), Value::Int(100)] },
        Row { timestamp: 2, values: vec![Value::Bit(0), Value::Int(-200)] },
        Row { timestamp: 3, values: vec![Value::Bit(1), Value::Int(300)] },
    ];
    let data = encode_rows(&rows);
    let mut cols = empty_columns(&schema, 3);
    decode_row_into(&data, &schema, 2, &mut cols);
    decode_row_into(&data, &schema, 0, &mut cols);
    decode_row_into(&data, &schema, 0, &mut cols);
    assert_eq!(format!("{:?}", cols), "[Bit([1, 1, 1]), Int([300, 100, 100])]");
}
