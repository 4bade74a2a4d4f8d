//! Pipeline configuration: runtime settings, storage, fault tolerance and
//! connectors.

use std::collections::BTreeMap;
use crate::string::same_text;
use vstd::prelude::*;

verus! {

/// Default of `ConnectorConfig::max_queued_records`.
pub fn default_max_queued_records() -> (r: u64)
    ensures
        r == 1_000_000,
{
    1_000_000
}

/// Default of `ConnectorConfig::max_batch_size`, in records.
pub fn default_max_batch_size() -> (r: u64)
    ensures
        r == 10_000,
{
    10_000
}

/// How to cache access to storage.
#[derive(Clone, Copy, Debug, PartialEq, Eq, Structural)]
pub enum StorageCacheConfig {
    /// The operating system's page cache.
    PageCache,
    /// The pipeline's own cache.
    FelderaCache,
}

impl Default for StorageCacheConfig {
    fn default() -> (r: StorageCacheConfig)
        ensures
            r == StorageCacheConfig::PageCache,
    {
        StorageCacheConfig::PageCache
    }
}

/// Persistent storage of a pipeline.
#[derive(Clone, Debug, PartialEq, Eq)]
pub struct StorageConfig {
    /// Where the pipeline state is or will be stored.
    pub path: String,
    /// How access to storage is cached.
    pub cache: StorageCacheConfig,
}

impl StorageConfig {
    /// The storage location.
    pub fn path(&self) -> (r: &str)
        ensures
            r@ == self.path@,
    {
        self.path.as_str()
    }
}

/// Fault-tolerance policy.
#[derive(Clone, Copy, Debug, PartialEq, Eq, Structural)]
pub struct FtConfig {
    /// Seconds between automatic checkpoints; 0 disables them.
    pub checkpoint_interval_secs: u64,
}

impl Default for FtConfig {
    fn default() -> (r: FtConfig)
        ensures
            r.checkpoint_interval_secs == 60,
    {
        FtConfig { checkpoint_interval_secs: 60 }
    }
}

/// Resource hints for a pipeline; every bound is optional.
#[derive(Clone, Debug, PartialEq, Eq)]
pub struct ResourceConfig {
    pub cpu_cores_min: Option<u64>,
    pub cpu_cores_max: Option<u64>,
    pub memory_mb_min: Option<u64>,
    pub memory_mb_max: Option<u64>,
    pub storage_mb_max: Option<u64>,
    pub storage_class: Option<String>,
}

impl Default for ResourceConfig {
    fn default() -> (r: ResourceConfig)
        ensures
            r.cpu_cores_min is None,
            r.cpu_cores_max is None,
            r.memory_mb_min is None,
            r.memory_mb_max is None,
            r.storage_mb_max is None,
            r.storage_class is None,
    {
        ResourceConfig {
            cpu_cores_min: None,
            cpu_cores_max: None,
            memory_mb_min: None,
            memory_mb_max: None,
            storage_mb_max: None,
            storage_class: None,
        }
    }
}

/// Global settings of the pipeline runtime.
#[derive(Clone, Debug, PartialEq, Eq)]
pub struct RuntimeConfig {
    /// Number of worker threads.
    pub workers: u16,
    /// Whether state is kept in storage.
    pub storage: bool,
    /// Fault-tolerance policy; none when absent.
    pub fault_tolerance: Option<FtConfig>,
    /// Whether the CPU profiler is on.
    pub cpu_profiler: bool,
    /// Whether traces are sent to Jaeger.
    pub tracing: bool,
    /// Where traces go.
    pub tracing_endpoint_jaeger: String,
    /// Minimum number of records in a batch before a step.
    pub min_batch_size_records: u64,
    /// Longest time an input waits for `min_batch_size_records`.
    pub max_buffering_delay_usecs: u64,
    /// Resource hints.
    pub resources: ResourceConfig,
    /// Smallest batch, in bytes, that is written to storage.
    pub min_storage_bytes: Option<usize>,
    /// Resolution of the real-time clock.
    pub clock_resolution_usecs: Option<u64>,
}

impl Default for RuntimeConfig {
    fn default() -> (r: RuntimeConfig)
        ensures
            r.workers == 8,
            !r.storage,
            r.fault_tolerance is None,
            r.cpu_profiler,
            !r.tracing,
            r.tracing_endpoint_jaeger@ == "127.0.0.1:6831"@,
            r.min_batch_size_records == 0,
            r.max_buffering_delay_usecs == 0,
            r.resources.cpu_cores_min is None && r.resources.cpu_cores_max is None,
            r.resources.memory_mb_min is None && r.resources.memory_mb_max is None,
            r.resources.storage_mb_max is None && r.resources.storage_class is None,
            r.min_storage_bytes is None,
            r.clock_resolution_usecs == Some(100_000u64),
    {
        RuntimeConfig {
            workers: 8,
            storage: false,
            fault_tolerance: None,
            cpu_profiler: true,
            tracing: false,
            tracing_endpoint_jaeger: "127.0.0.1:6831".to_string(),
            min_batch_size_records: 0,
            max_buffering_delay_usecs: 0,
            resources: ResourceConfig::default(),
            min_storage_bytes: None,
            clock_resolution_usecs: Some(100_000),
        }
    }
}

/// How the `fault_tolerance` setting was written in a configuration
/// document.
#[derive(Clone, Debug, PartialEq, Eq)]
pub enum FaultToleranceSetting {
    /// Absent, or written as null.
    Absent,
    /// A string.
    Text(String),
    /// A structured fault-tolerance policy.
    Policy(FtConfig),
}

/// Whether a string is one of the legacy names of the default policy.
pub open spec fn is_legacy_ft_name(s: Seq<char>) -> bool {
    s == "initial_state"@ || s == "latest_checkpoint"@
}

/// Reads the `fault_tolerance` setting: absent means none, the legacy names
/// `initial_state` and `latest_checkpoint` mean the default policy, any other
/// string is an error, and a policy is taken as it is.
pub fn fault_tolerance_from(setting: &FaultToleranceSetting) -> (r: Result<Option<FtConfig>, String>)
    ensures
        match setting {
            FaultToleranceSetting::Absent => r == Ok::<Option<FtConfig>, String>(None),
            FaultToleranceSetting::Policy(p) => r == Ok::<Option<FtConfig>, String>(Some(*p)),
            FaultToleranceSetting::Text(s) => if is_legacy_ft_name(s@) {
                r matches Ok(Some(p)) && p.checkpoint_interval_secs == 60
            } else {
                r is Err
            },
        },
{
    match setting {
        FaultToleranceSetting::Absent => Ok(None),
        FaultToleranceSetting::Policy(p) => Ok(Some(*p)),
        FaultToleranceSetting::Text(s) => {
            if same_text(s.as_str(), "initial_state") || same_text(s.as_str(), "latest_checkpoint") {
                Ok(Some(FtConfig::default()))
            } else {
                Err("expected none, a fault-tolerance policy, 'initial_state' or 'latest_checkpoint'".to_string())
            }
        },
    }
}

/// Output buffering of a connector.
#[derive(Clone, Copy, Debug, PartialEq, Eq, Structural)]
pub struct OutputBufferConfig {
    /// Whether output is buffered.
    pub enable_output_buffer: bool,
    /// Longest time output is held, in milliseconds; `usize::MAX` when unset.
    pub max_output_buffer_time_millis: usize,
    /// Most records held; `usize::MAX` when unset.
    pub max_output_buffer_size_records: usize,
}

impl Default for OutputBufferConfig {
    fn default() -> (r: OutputBufferConfig)
        ensures
            !r.enable_output_buffer,
            r.max_output_buffer_size_records == usize::MAX,
            r.max_output_buffer_time_millis == usize::MAX,
    {
        OutputBufferConfig {
            enable_output_buffer: false,
            max_output_buffer_size_records: usize::MAX,
            max_output_buffer_time_millis: usize::MAX,
        }
    }
}

impl OutputBufferConfig {
    /// An error when buffering is on but neither bound was set.
    pub fn validate(&self) -> (r: Result<(), String>)
        ensures
            r is Err <==> (self.enable_output_buffer && self.max_output_buffer_size_records
                == usize::MAX && self.max_output_buffer_time_millis == usize::MAX),
    {
        let d = OutputBufferConfig::default();
        if self.enable_output_buffer && self.max_output_buffer_size_records
            == d.max_output_buffer_size_records && self.max_output_buffer_time_millis
            == d.max_output_buffer_time_millis {
            return Err(
                "when the 'enable_output_buffer' flag is set, one of 'max_output_buffer_size_records' and 'max_output_buffer_time_millis' settings must be specified".to_string(),
            );
        }
        Ok(())
    }
}

/// A transport and its settings; the settings of each kind are kept as the
/// text of the configuration document.
#[derive(Clone, Debug, PartialEq, Eq)]
pub enum TransportConfig {
    FileInput(String),
    FileOutput(String),
    KafkaInput(String),
    KafkaOutput(String),
    PubSubInput(String),
    UrlInput(String),
    S3Input(String),
    DeltaTableInput(String),
    DeltaTableOutput(String),
    Datagen(String),
    Nexmark(String),
    HttpInput(String),
    HttpOutput,
    AdHocInput(String),
}

/// The wire name of each kind of transport.
pub open spec fn transport_name(t: TransportConfig) -> Seq<char> {
    match t {
        TransportConfig::FileInput(_) => "file_input"@,
        TransportConfig::FileOutput(_) => "file_output"@,
        TransportConfig::KafkaInput(_) => "kafka_input"@,
        TransportConfig::KafkaOutput(_) => "kafka_output"@,
        TransportConfig::PubSubInput(_) => "pub_sub_input"@,
        TransportConfig::UrlInput(_) => "url_input"@,
        TransportConfig::S3Input(_) => "s3_input"@,
        TransportConfig::DeltaTableInput(_) => "delta_table_input"@,
        TransportConfig::DeltaTableOutput(_) => "delta_table_output"@,
        TransportConfig::Datagen(_) => "datagen"@,
        TransportConfig::Nexmark(_) => "nexmark"@,
        TransportConfig::HttpInput(_) => "http_input"@,
        TransportConfig::HttpOutput => "http_output"@,
        TransportConfig::AdHocInput(_) => "adhoc_input"@,
    }
}

impl TransportConfig {
    /// The wire name of the transport.
    pub fn name(&self) -> (r: String)
        ensures
            r@ == transport_name(*self),
    {
        let s = match self {
            TransportConfig::FileInput(_) => "file_input",
            TransportConfig::FileOutput(_) => "file_output",
            TransportConfig::KafkaInput(_) => "kafka_input",
            TransportConfig::KafkaOutput(_) => "kafka_output",
            TransportConfig::PubSubInput(_) => "pub_sub_input",
            TransportConfig::UrlInput(_) => "url_input",
            TransportConfig::S3Input(_) => "s3_input",
            TransportConfig::DeltaTableInput(_) => "delta_table_input",
            TransportConfig::DeltaTableOutput(_) => "delta_table_output",
            TransportConfig::Datagen(_) => "datagen",
            TransportConfig::Nexmark(_) => "nexmark",
            TransportConfig::HttpInput(_) => "http_input",
            TransportConfig::HttpOutput => "http_output",
            TransportConfig::AdHocInput(_) => "adhoc_input",
        };
        s.to_string()
    }
}

/// A data format by name, with its settings as the text of the document.
#[derive(Clone, Debug, PartialEq, Eq)]
pub struct FormatConfig {
    pub name: String,
    pub config: String,
}

/// A connector: its transport, format and flow-control settings.
#[derive(Clone, Debug, PartialEq, Eq)]
pub struct ConnectorConfig {
    pub transport: TransportConfig,
    pub format: Option<FormatConfig>,
    pub output_buffer_config: OutputBufferConfig,
    pub max_batch_size: u64,
    pub max_queued_records: u64,
    pub paused: bool,
}

impl ConnectorConfig {
    /// A connector over `transport` with every other setting at its default.
    pub fn new(transport: TransportConfig) -> (r: ConnectorConfig)
        ensures
            r.transport == transport,
            r.format is None,
            !r.output_buffer_config.enable_output_buffer,
            r.output_buffer_config.max_output_buffer_size_records == usize::MAX,
            r.output_buffer_config.max_output_buffer_time_millis == usize::MAX,
            r.max_batch_size == 10_000,
            r.max_queued_records == 1_000_000,
            !r.paused,
    {
        ConnectorConfig {
            transport,
            format: None,
            output_buffer_config: OutputBufferConfig::default(),
            max_batch_size: default_max_batch_size(),
            max_queued_records: default_max_queued_records(),
            paused: false,
        }
    }
}

/// An input connector and the table it feeds.
#[derive(Clone, Debug, PartialEq, Eq)]
pub struct InputEndpointConfig {
    pub stream: String,
    pub connector_config: ConnectorConfig,
}

/// An output connector and the view it reads.
#[derive(Clone, Debug, PartialEq, Eq)]
pub struct OutputEndpointConfig {
    pub stream: String,
    pub connector_config: ConnectorConfig,
}

/// Everything a pipeline runs with: the runtime settings, a name, storage and
/// connectors by name.
#[derive(Clone, Debug, PartialEq, Eq)]
pub struct PipelineConfig {
    pub global: RuntimeConfig,
    pub name: Option<String>,
    pub storage_config: Option<StorageConfig>,
    pub inputs: BTreeMap<String, InputEndpointConfig>,
    pub outputs: BTreeMap<String, OutputEndpointConfig>,
}

} // verus!
