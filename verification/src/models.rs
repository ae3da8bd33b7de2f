use vstd::prelude::*;

verus! {

/// Name the server gives the namespace that every client which predates
/// namespaces works in.
pub open spec fn default_namespace() -> Seq<char> {
    seq!['d', 'e', 'f', 'a', 'u', 'l', 't']
}

/// `"default"`, the namespace of clients that name none.
pub fn default_namespace_name() -> (s: String)
    ensures
        s@ == default_namespace(),
{
    proof {
        reveal_strlit("default");
    }
    String::from_str("default")
}

/// A reader connection, as `/api/Status` lists it.
#[derive(Clone, Debug)]
pub struct ReaderApiModel {
    pub id: String,
    pub name: String,
    pub namespace: String,
    pub ip: String,
    pub tables: Vec<String>,
    pub last_incoming_time: String,
    pub connected_time: String,
    pub pending_to_send: u64,
    pub sent_per_second: Vec<u64>,
    /// A MyNoSqlServer node replicating from this server, not a client.
    pub is_node: bool,
    /// Round trip in microseconds, as the client reported it. `None` until it does.
    pub latency: Option<i64>,
}

/// A writer application, as `/api/Status` lists it.
#[derive(Clone, Debug)]
pub struct WriterApiModel {
    pub name: String,
    pub namespace: String,
    pub version: String,
    pub last_update: String,
    pub tables: Vec<String>,
}

/// A table with its statistics, as `/api/Status` lists it.
#[derive(Clone, Debug)]
pub struct TableApiModel {
    pub name: String,
    pub persist: bool,
    /// Whether the rows of this table are kept compressed in memory.
    pub compressed: bool,
    pub max_partitions_amount: Option<u64>,
    pub max_rows_per_partition: Option<u64>,
    pub partitions_count: u64,
    pub data_size: u64,
    pub records_amount: u64,
    pub expiration_index_records_amount: u64,
    pub last_update_time: i64,
    pub last_persist_time: Option<i64>,
    pub last_persist_duration: Vec<u64>,
    pub next_persist_time: Option<i64>,
    pub persist_amount: u64,
    pub avg_entity_size: u64,
}

/// Server-wide traffic counters of the status bar.
#[derive(Clone, Copy, Debug)]
pub struct StatusBarApiModel {
    pub read_per_second: u64,
    pub write_payloads_per_second: u64,
    pub write_bytes_per_second: u64,
}

impl Default for StatusBarApiModel {
    fn default() -> (r: Self)
        ensures
            r.read_per_second == 0,
            r.write_payloads_per_second == 0,
            r.write_bytes_per_second == 0,
    {
        StatusBarApiModel { read_per_second: 0, write_payloads_per_second: 0, write_bytes_per_second: 0 }
    }
}

/// The answer of `/api/Status`.
#[derive(Clone, Debug)]
pub struct StatusApiModel {
    pub not_initialized: Option<NotInitializedApiModel>,
    pub initialized: Option<InitializedApiModel>,
    pub status_bar: StatusBarApiModel,
}

impl Default for StatusApiModel {
    fn default() -> (r: Self)
        ensures
            r.not_initialized is None,
            r.initialized is None,
            r.status_bar.read_per_second == 0,
            r.status_bar.write_payloads_per_second == 0,
            r.status_bar.write_bytes_per_second == 0,
    {
        StatusApiModel {
            not_initialized: None,
            initialized: None,
            status_bar: StatusBarApiModel::default(),
        }
    }
}

/// The connections and tables of a server that has finished loading.
#[derive(Clone, Debug)]
pub struct InitializedApiModel {
    pub readers: Vec<ReaderApiModel>,
    pub writers: Vec<WriterApiModel>,
    pub tables: Vec<TableApiModel>,
}

/// Loading progress of a server that is still reading its data.
#[derive(Clone, Debug)]
pub struct NotInitializedApiModel {
    pub message: Option<String>,
    pub loaded_files: Option<u64>,
    pub files_to_load: Option<u64>,
}

/// A reader connection, as `/api/Connections` lists it.
#[derive(Clone, Debug)]
pub struct ConnectionReaderApiModel {
    pub id: String,
    pub name: String,
    pub namespace: String,
    pub ip: String,
    pub incoming_per_second: u64,
    pub outgoing_per_second: u64,
    pub pending_to_send: u64,
    pub is_node: bool,
    /// Round trip in microseconds, as the client reported it. `None` until it does.
    pub latency: Option<i64>,
}

/// A writer connection, as `/api/Connections` lists it.
#[derive(Clone, Debug)]
pub struct ConnectionWriterApiModel {
    pub session: String,
    pub name: String,
    pub namespace: String,
    pub version: String,
    pub addr: String,
    pub tables: Vec<String>,
    pub last_incoming_time: String,
    pub req_per_second: u64,
    pub bytes_per_second: u64,
}

/// The answer of `/api/Connections`: server-wide traffic and every connection.
#[derive(Clone, Debug)]
pub struct ConnectionsApiModel {
    pub incoming_per_second: u64,
    pub outgoing_per_second: u64,
    pub write_payloads_per_second: u64,
    pub write_bytes_per_second: u64,
    pub readers: Vec<ConnectionReaderApiModel>,
    pub writers: Vec<ConnectionWriterApiModel>,
}

/// A namespace the server knows, with the number of tables in it.
#[derive(Clone, Debug)]
pub struct NamespaceApiModel {
    pub name: String,
    pub tables_amount: u64,
}

/// A table, as `/api/Tables/List` lists it.
#[derive(Clone, Debug)]
pub struct TableListItemApiModel {
    pub name: String,
}

/// A partition of a table with its size.
#[derive(Clone, Debug)]
pub struct PartitionMetricApiModel {
    pub partition_key: String,
    pub records_count: u64,
    pub data_size: u64,
}

/// A snapshot archive in the backup folder.
#[derive(Clone, Debug)]
pub struct SnapshotFileApiModel {
    pub name: String,
    pub size: u64,
}

/// A table inside a snapshot archive.
#[derive(Clone, Debug)]
pub struct SnapshotTableApiModel {
    pub name: String,
    pub partitions_count: u64,
}

} // verus!
