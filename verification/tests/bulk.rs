use binary_processor::bulk::{chunk_ranges, merge_chunks};
use binary_processor::codec::decode_rows;
use binary_processor::{
    encode_rows, read_channels, read_channels_chunked, Channel, ChannelData, DataType, Row, Schema,
    Value, CHUNK_SIZE,
};

fn bulk_schema(kinds: &[DataType]) -> Schema {
    Schema {
        channels: kinds
            .iter()
            .enumerate()
            .map(|(i, k)| Channel { name: format!("ch_{}", i), data_type: *k })
            .collect(),
    }
}

fn bulk_rows(kinds: &[DataType], n: usize) -> Vec<Row> {
    let mut state: u64 = 0x0123_4567_89AB_CDEF;
    let mut next = move || {
        state = state.wrapping_mul(6364136223846793005).wrapping_add(1442695040888963407);
        state
    };
    (0..n)
        .map(|r| Row {
            timestamp: (r as f64 * 0.5).to_bits(),
            values: kinds
                .iter()
                .map(|k| match k {
                    DataType::Bit => Value::Bit((next() >> 33) as u8 & 1),
                    DataType::Int => Value::Int((next() >> 20) as i32),
                    DataType::Float => Value::Float(next()),
                })
                .collect(),
        })
        .collect()
}

fn bulk_expected(kinds: &[DataType], rows: &[Row]) -> String {
    let cols: Vec<ChannelData> = kinds
        .iter()
        .enumerate()
        .map(|(c, k)| match k {
            DataType::Bit => ChannelData::Bit(
                rows.iter()
                    .map(|r| match r.values[c] {
                        Value::Bit(b) => b,
                        _ => unreachable!(),
                    })
                    .collect(),
            ),
            DataType::Int => ChannelData::Int(
                rows.iter()
                    .map(|r| match r.values[c] {
                        Value::Int(i) => i,
                        _ => unreachable!(),
                    })
                    .collect(),
            ),
            DataType::Float => ChannelData::Float(
                rows.iter()
                    .map(|r| match r.values[c] {
                        Value::Float(f) => f,
                        _ => unreachable!(),
                    })
                    .collect(),
            ),
        })
        .collect();
    format!("{:?}", cols)
}

#[test]
fn the_default_chunk_is_ten_thousand_rows() {
    assert_eq!(CHUNK_SIZE, 10_000);
}

#[test]
fn chunks_tile_the_rows() {
    assert_eq!(chunk_ranges(0, 7), vec![]);
    assert_eq!(chunk_ranges(1, 7), vec![(0, 1)]);
    assert_eq!(chunk_ranges(7, 7), vec![(0, 7)]);
    assert_eq!(chunk_ranges(8, 7), vec![(0, 7), (7, 8)]);
    assert_eq!(chunk_ranges(23, 7), vec![(0, 7), (7, 14), (14, 21), (21, 23)]);
    assert_eq!(chunk_ranges(3, 1), vec![(0, 1), (1, 2), (2, 3)]);
    assert_eq!(chunk_ranges(25_000, 10_000), vec![(0, 10_000), (10_000, 20_000), (20_000, 25_000)]);
    assert_eq!(chunk_ranges(5, usize::MAX), vec![(0, 5)]);
    assert_eq!(chunk_ranges(usize::MAX, usize::MAX), vec![(0, usize::MAX)]);
}

#[test]
fn bulk_decode_round_trip() {
    let kinds = [DataType::Bit, DataType::Int, DataType::Float, DataType::Int];
    let schema = bulk_schema(&kinds);
    let rows = bulk_rows(&kinds, 23);
    let data = encode_rows(&rows);
    let cols = read_channels(&data, &schema);
    assert_eq!(format!("{:?}", cols), bulk_expected(&kinds, &rows));
    assert!(cols.iter().all(|c| c.len() == 23));
}

#[test]
fn chunk_size_does_not_change_the_result() {
    let kinds = [DataType::Int, DataType::Bit, DataType::Float];
    let schema = bulk_schema(&kinds);
    let rows = bulk_rows(&kinds, 23);
    let data = encode_rows(&rows);
    let expected = bulk_expected(&kinds, &rows);
    for chunk_size in [1, 7, 10_000, 23, 22, 24, usize::MAX] {
        let cols = read_channels_chunked(&data, &schema, chunk_size);
        assert_eq!(format!("{:?}", cols), expected, "chunk size {}", chunk_size);
    }
}

#[test]
fn rows_beyond_one_default_chunk_stay_in_order() {
    let kinds = [DataType::Int];
    let schema = bulk_schema(&kinds);
    let rows: Vec<Row> = (0..25_003)
        .map(|i| Row { timestamp: i as u64, values: vec![Value::Int(i - 12_000)] })
        .collect();
    let data = encode_rows(&rows);
    let cols = read_channels(&data, &schema);
    assert_eq!(cols.len(), 1);
    match &cols[0] {
        ChannelData::Int(v) => {
            assert_eq!(v.len(), 25_003);
            assert!(v.iter().enumerate().all(|(i, x)| *x == i as i32 - 12_000));
        }
        other => panic!("unexpected column {:?}", other),
    }
    let again = read_channels_chunked(&data, &schema, 4_999);
    assert_eq!(format!("{:?}", again), format!("{:?}", cols));
}

#[test]
fn bulk_decode_drops_a_partial_row() {
    let kinds = [DataType::Float, DataType::Bit];
    let schema = bulk_schema(&kinds);
    let rows = bulk_rows(&kinds, 5);
    let mut data = encode_rows(&rows);
    data.extend_from_slice(&[1, 2, 3, 4, 5, 6, 7, 8, 9, 10, 11, 12, 13, 14, 15, 16]);
    let cols = read_channels(&data, &schema);
    assert_eq!(format!("{:?}", cols), bulk_expected(&kinds, &rows));
}

#[test]
fn bulk_decode_of_an_empty_file() {
    let schema = bulk_schema(&[DataType::Bit, DataType::Float]);
    let cols = read_channels(&[], &schema);
    assert_eq!(format!("{:?}", cols), "[Bit([]), Float([])]");
    let short = read_channels(&[0u8; 16], &schema);
    assert_eq!(format!("{:?}", short), "[Bit([]), Float([])]");
}

#[test]
fn bulk_decode_without_channels() {
    let schema = bulk_schema(&[]);
    let cols = read_channels(&[0u8; 80], &schema);
    assert!(cols.is_empty());
}

#[test]
fn pieces_are_joined_in_the_order_given() {
    let kinds = [DataType::Int, DataType::Bit];
    let schema = bulk_schema(&kinds);
    let parts = vec![
        vec![ChannelData::Int(vec![1, 2]), ChannelData::Bit(vec![1, 1])],
        vec![ChannelData::Int(vec![]), ChannelData::Bit(vec![])],
        vec![ChannelData::Int(vec![3]), ChannelData::Bit(vec![0])],
    ];
    let merged = merge_chunks(&schema, 3, parts);
    assert_eq!(format!("{:?}", merged), "[Int([1, 2, 3]), Bit([1, 1, 0])]");
    let none = merge_chunks(&schema, 0, vec![]);
    assert_eq!(format!("{:?}", none), "[Int([]), Bit([])]");
}

#[test]
fn joining_decoded_pieces_gives_the_whole() {
    let kinds = [DataType::Float, DataType::Int];
    let schema = bulk_schema(&kinds);
    let rows = bulk_rows(&kinds, 12);
    let data = encode_rows(&rows);
    let parts = vec![
        decode_rows(&data, &schema, 0, 5),
        decode_rows(&data, &schema, 5, 6),
        decode_rows(&data, &schema, 6, 12),
    ];
    let merged = merge_chunks(&schema, 12, parts);
    assert_eq!(format!("{:?}", merged), format!("{:?}", decode_rows(&data, &schema, 0, 12)));
    assert_eq!(format!("{:?}", merged), bulk_expected(&kinds, &rows));
}
