//! Schema-driven codec for fixed-stride binary sensor logs.
//!
//! A log is a flat run of rows. Every row starts with an eight-byte
//! timestamp and is followed by one fixed-width value per channel, in the
//! order the schema lists the channels. The modules below describe that
//! layout, decode whole files or bounded batches into typed columns, and
//! state what is decoded as functions of the file's bytes.

pub mod bulk;
pub mod codec;
pub mod column;
pub mod encode;
pub mod endian;
pub mod layout;
pub mod reader;
pub mod schema;
pub mod sensor;

pub use crate::bulk::{read_channels, read_channels_chunked, CHUNK_SIZE};
pub use crate::column::{ChannelData, Value};
pub use crate::encode::{encode_row, encode_rows, Row};
pub use crate::reader::BatchReader;
pub use crate::schema::{Channel, DataType, Schema};
pub use crate::sensor::{get_sensor_data, ColumnBatch, SensorData, SensorError};
