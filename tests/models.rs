use streamsql::config::{ConnectorConfig, FaultToleranceSetting, FtConfig, OutputBufferConfig, ResourceConfig, RuntimeConfig, StorageCacheConfig, StorageConfig, TransportConfig, default_max_batch_size, default_max_queued_records, fault_tolerance_from};
use streamsql::json::{JsonEncoderConfig, JsonFlavor, JsonParserConfig, JsonUpdateFormat};
use streamsql::layout::{CircuitConfig, Layout};
use streamsql::schema::{IntervalUnit, Relation, SqlType, canonical_identifier};

#[test]
fn connector_defaults() {
    assert_eq!(default_max_queued_records(), 1_000_000);
    assert_eq!(default_max_batch_size(), 10_000);
    let c = ConnectorConfig::new(TransportConfig::HttpOutput);
    assert_eq!(c.max_batch_size, 10_000);
    assert_eq!(c.max_queued_records, 1_000_000);
    assert!(!c.paused);
    assert!(c.format.is_none());
}

#[test]
fn runtime_defaults() {
    let r = RuntimeConfig::default();
    assert_eq!(r.workers, 8);
    assert!(!r.storage);
    assert!(r.fault_tolerance.is_none());
    assert!(r.cpu_profiler);
    assert!(!r.tracing);
    assert_eq!(r.tracing_endpoint_jaeger, "127.0.0.1:6831");
    assert_eq!(r.min_batch_size_records, 0);
    assert_eq!(r.max_buffering_delay_usecs, 0);
    assert_eq!(r.min_storage_bytes, None);
    assert_eq!(r.clock_resolution_usecs, Some(100_000));
    assert_eq!(FtConfig::default().checkpoint_interval_secs, 60);
    assert_eq!(StorageCacheConfig::default(), StorageCacheConfig::PageCache);
    assert_eq!(ResourceConfig::default().storage_class, None);
}

#[test]
fn fault_tolerance_setting() {
    assert_eq!(fault_tolerance_from(&FaultToleranceSetting::Absent), Ok(None));
    assert_eq!(
        fault_tolerance_from(&FaultToleranceSetting::Text(String::from("initial_state"))),
        Ok(Some(FtConfig { checkpoint_interval_secs: 60 }))
    );
    assert_eq!(
        fault_tolerance_from(&FaultToleranceSetting::Text(String::from("latest_checkpoint"))),
        Ok(Some(FtConfig::default()))
    );
    assert!(fault_tolerance_from(&FaultToleranceSetting::Text(String::from("sometimes"))).is_err());
    let p = FtConfig { checkpoint_interval_secs: 0 };
    assert_eq!(fault_tolerance_from(&FaultToleranceSetting::Policy(p)), Ok(Some(p)));
}

#[test]
fn output_buffer_validation() {
    let mut c = OutputBufferConfig::default();
    assert!(c.validate().is_ok());
    c.enable_output_buffer = true;
    assert!(c.validate().is_err());
    c.max_output_buffer_time_millis = 100;
    assert!(c.validate().is_ok());
    let c = OutputBufferConfig { enable_output_buffer: true, max_output_buffer_time_millis: usize::MAX, max_output_buffer_size_records: 10 };
    assert!(c.validate().is_ok());
}

#[test]
fn transport_names() {
    assert_eq!(TransportConfig::FileInput(String::new()).name(), "file_input");
    assert_eq!(TransportConfig::PubSubInput(String::new()).name(), "pub_sub_input");
    assert_eq!(TransportConfig::HttpOutput.name(), "http_output");
    assert_eq!(TransportConfig::AdHocInput(String::new()).name(), "adhoc_input");
}

#[test]
fn storage_path() {
    let s = StorageConfig { path: String::from("/tmp/x"), cache: StorageCacheConfig::FelderaCache };
    assert_eq!(s.path(), "/tmp/x");
}

#[test]
fn json_defaults() {
    let p = JsonParserConfig::default();
    assert_eq!(p.update_format, JsonUpdateFormat::InsertDelete);
    assert_eq!(p.json_flavor, JsonFlavor::Default);
    assert!(!p.array);
    let e = JsonEncoderConfig::default();
    assert_eq!(e.buffer_size_records, 10_000);
    assert!(e.json_flavor.is_none() && e.key_fields.is_none() && !e.array);
    assert_eq!(JsonUpdateFormat::Snowflake.name(), "snowflake");
    assert_eq!(JsonUpdateFormat::InsertDelete.name(), "insert_delete");
}

#[test]
fn identifiers_are_canonical() {
    assert_eq!(canonical_identifier("MyTable"), "mytable");
    assert_eq!(canonical_identifier("\"MyTable\""), "MyTable");
    assert_eq!(canonical_identifier("\""), "\"");
    assert_eq!(canonical_identifier("\"\""), "");
}

#[test]
fn relation_names() {
    let r = Relation::new("T1", false, vec![]);
    assert_eq!(r.name(), "t1");
    let r = Relation::new("T1", true, vec![]);
    assert_eq!(r.name(), "T1");
}

#[test]
fn sql_type_tags() {
    assert_eq!(SqlType::BigInt.tag(), "BIGINT");
    assert_eq!(SqlType::Int.tag(), "INTEGER");
    assert_eq!(SqlType::Interval(IntervalUnit::DayToSecond).tag(), "INTERVAL");
    assert_eq!(SqlType::Struct.tag(), "STRUCT");
}

#[test]
fn solo_layouts() {
    let l = Layout::new_solo(3);
    assert_eq!(l.n_workers(), 3);
    assert_eq!(l.local_workers(), 0..3);
    assert!(l.other_hosts().is_empty());
    assert_eq!(l.local_address(), None);
    let c = CircuitConfig::with_workers(4);
    assert_eq!(c.layout.n_workers(), 4);
    assert!(c.storage.is_none());
}

#[test]
fn sql_type_from_tags() {
    assert_eq!(SqlType::from_tag("BIGINT"), Ok(SqlType::BigInt));
    assert_eq!(SqlType::from_tag("varchar"), Ok(SqlType::Varchar));
    assert_eq!(SqlType::from_tag("Interval_Day_Second"), Ok(SqlType::Interval(IntervalUnit::DayToSecond)));
    assert_eq!(SqlType::from_tag("INTERVAL_YEAR_MONTH"), Ok(SqlType::Interval(IntervalUnit::YearToMonth)));
    assert!(SqlType::from_tag("GEOMETRY").is_err());
    assert!(SqlType::from_tag("INTERVAL").is_err());
}
