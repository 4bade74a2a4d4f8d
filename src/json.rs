//! How JSON-encoded rows are framed on input and produced on output.

use vstd::prelude::*;

verus! {

/// The envelope of each JSON record.
#[derive(Clone, Copy, Debug, PartialEq, Eq, Hash, Structural)]
pub enum JsonUpdateFormat {
    /// `{"insert": {...}}` and `{"delete": {...}}` objects.
    InsertDelete,
    /// Records with an explicit signed weight.
    Weighted,
    /// Only the `payload.{op,before,after}` part of a Debezium message.
    Debezium,
    /// Flat records with `__action`, `__stream_id` and `__seq_number` fields.
    Snowflake,
    /// Bare records, insertions only.
    Raw,
}

impl Default for JsonUpdateFormat {
    fn default() -> (r: JsonUpdateFormat)
        ensures
            r == JsonUpdateFormat::InsertDelete,
    {
        JsonUpdateFormat::InsertDelete
    }
}

/// The name of an update format on the wire.
pub open spec fn update_format_name(f: JsonUpdateFormat) -> Seq<char> {
    match f {
        JsonUpdateFormat::InsertDelete => "insert_delete"@,
        JsonUpdateFormat::Weighted => "weighted"@,
        JsonUpdateFormat::Debezium => "debezium"@,
        JsonUpdateFormat::Snowflake => "snowflake"@,
        JsonUpdateFormat::Raw => "raw"@,
    }
}

impl JsonUpdateFormat {
    /// The name of the format on the wire.
    pub fn name(&self) -> (r: String)
        ensures
            r@ == update_format_name(*self),
    {
        let s = match self {
            JsonUpdateFormat::InsertDelete => "insert_delete",
            JsonUpdateFormat::Weighted => "weighted",
            JsonUpdateFormat::Debezium => "debezium",
            JsonUpdateFormat::Snowflake => "snowflake",
            JsonUpdateFormat::Raw => "raw",
        };
        s.to_string()
    }
}

/// The field-naming convention of an upstream system.
#[derive(Clone, Copy, Debug, PartialEq, Eq, Hash, Structural)]
pub enum JsonFlavor {
    /// The generic convention.
    Default,
    /// Debezium reading MySQL.
    DebeziumMySql,
    /// Debezium reading Postgres.
    DebeziumPostgres,
    /// Snowflake.
    Snowflake,
    /// Kafka Connect's JSON converter.
    KafkaConnectJsonConverter,
    /// A tabular convention.
    Pandas,
    /// Parquet converted to JSON; not chosen by users.
    ParquetConverter,
    /// The synthetic data generator; not chosen by users.
    Datagen,
}

impl Default for JsonFlavor {
    fn default() -> (r: JsonFlavor)
        ensures
            r == JsonFlavor::Default,
    {
        JsonFlavor::Default
    }
}

/// How JSON input is parsed.
#[derive(Clone, Copy, Debug, PartialEq, Eq, Structural)]
pub struct JsonParserConfig {
    pub update_format: JsonUpdateFormat,
    pub json_flavor: JsonFlavor,
    /// Whether records come in JSON arrays rather than one per line.
    pub array: bool,
}

impl Default for JsonParserConfig {
    fn default() -> (r: JsonParserConfig)
        ensures
            r.update_format == JsonUpdateFormat::InsertDelete,
            r.json_flavor == JsonFlavor::Default,
            !r.array,
    {
        JsonParserConfig {
            update_format: JsonUpdateFormat::default(),
            json_flavor: JsonFlavor::default(),
            array: false,
        }
    }
}

/// How JSON output is produced.
#[derive(Clone, Debug, PartialEq, Eq)]
pub struct JsonEncoderConfig {
    pub update_format: JsonUpdateFormat,
    pub json_flavor: Option<JsonFlavor>,
    pub buffer_size_records: usize,
    pub array: bool,
    /// The columns of a Debezium message key; meaningful only with the
    /// Debezium update format.
    pub key_fields: Option<Vec<String>>,
}

impl Default for JsonEncoderConfig {
    fn default() -> (r: JsonEncoderConfig)
        ensures
            r.update_format == JsonUpdateFormat::InsertDelete,
            r.json_flavor is None,
            r.buffer_size_records == 10_000,
            !r.array,
            r.key_fields is None,
    {
        JsonEncoderConfig {
            update_format: JsonUpdateFormat::default(),
            json_flavor: None,
            buffer_size_records: 10_000,
            array: false,
            key_fields: None,
        }
    }
}

} // verus!
