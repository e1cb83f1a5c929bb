//! Messages exchanged between replicas and with clients.
use vstd::prelude::*;

verus! {

/// The kind of a log entry.
#[derive(Debug, Clone, Copy, PartialEq, Eq, Structural)]
pub enum EntryType {
    /// A client payload, handed to the state machine once committed.
    Data,
    /// An empty entry that a new leader appends at the start of its term.
    Noop,
    /// A cluster membership change.
    Configuration,
}

impl DeepView for EntryType {
    type V = EntryType;

    open spec fn deep_view(&self) -> EntryType {
        *self
    }
}

/// Wire number of `Data`.
pub const ENTRY_TYPE_DATA: i32 = 0;

/// Wire number of `Noop`.
pub const ENTRY_TYPE_NOOP: i32 = 1;

/// Wire number of `Configuration`.
pub const ENTRY_TYPE_CONFIGURATION: i32 = 2;

/// The wire number of an entry kind.
pub open spec fn entry_type_number(t: EntryType) -> i32 {
    match t {
        EntryType::Data => ENTRY_TYPE_DATA,
        EntryType::Noop => ENTRY_TYPE_NOOP,
        EntryType::Configuration => ENTRY_TYPE_CONFIGURATION,
    }
}

/// The entry kind that a wire number stands for, if any.
pub open spec fn entry_type_of_number(n: i32) -> Option<EntryType> {
    if n == ENTRY_TYPE_DATA {
        Some(EntryType::Data)
    } else if n == ENTRY_TYPE_NOOP {
        Some(EntryType::Noop)
    } else if n == ENTRY_TYPE_CONFIGURATION {
        Some(EntryType::Configuration)
    } else {
        None
    }
}

/// The kind under which an entry is processed: unknown wire numbers count as `Data`.
pub open spec fn entry_kind(n: i32) -> EntryType {
    match entry_type_of_number(n) {
        Some(t) => t,
        None => EntryType::Data,
    }
}

impl EntryType {
    /// The wire number of this kind.
    pub fn to_i32(self) -> (n: i32)
        ensures
            n == entry_type_number(self),
    {
        match self {
            EntryType::Data => ENTRY_TYPE_DATA,
            EntryType::Noop => ENTRY_TYPE_NOOP,
            EntryType::Configuration => ENTRY_TYPE_CONFIGURATION,
        }
    }

    /// The kind with wire number `n`, or `None` when `n` names no kind.
    pub fn from_i32(n: i32) -> (r: Option<EntryType>)
        ensures
            r == entry_type_of_number(n),
    {
        if n == ENTRY_TYPE_DATA {
            Some(EntryType::Data)
        } else if n == ENTRY_TYPE_NOOP {
            Some(EntryType::Noop)
        } else if n == ENTRY_TYPE_CONFIGURATION {
            Some(EntryType::Configuration)
        } else {
            None
        }
    }

    /// The kind under which an entry with wire number `n` is processed.
    pub fn kind_of(n: i32) -> (t: EntryType)
        ensures
            t == entry_kind(n),
    {
        match EntryType::from_i32(n) {
            Some(t) => t,
            None => EntryType::Data,
        }
    }
}

impl From<EntryType> for i32 {
    fn from(t: EntryType) -> (n: i32) {
        t.to_i32()
    }
}

impl vstd::std_specs::convert::FromSpecImpl<EntryType> for i32 {
    open spec fn obeys_from_spec() -> bool {
        true
    }

    open spec fn from_spec(t: EntryType) -> i32 {
        entry_type_number(t)
    }
}

/// Which of the two snapshot files a chunk of an `InstallSnapshot` stream belongs to.
#[derive(Debug, Clone, Copy, PartialEq, Eq, Structural)]
pub enum SnapshotDataType {
    /// The metadata sidecar, streamed first.
    Metadata,
    /// The state-machine blob, streamed second.
    Snapshot,
}

/// Wire number of `SnapshotDataType::Metadata`.
pub const SNAPSHOT_DATA_METADATA: i32 = 0;

/// Wire number of `SnapshotDataType::Snapshot`.
pub const SNAPSHOT_DATA_SNAPSHOT: i32 = 1;

/// The file that a chunk tagged `n` belongs to: unknown tags count as `Snapshot`.
pub open spec fn snapshot_data_kind(n: i32) -> SnapshotDataType {
    if n == SNAPSHOT_DATA_METADATA {
        SnapshotDataType::Metadata
    } else {
        SnapshotDataType::Snapshot
    }
}

impl SnapshotDataType {
    /// The wire number of this tag.
    pub fn to_i32(self) -> (n: i32)
        ensures
            snapshot_data_kind(n) == self,
            n == SNAPSHOT_DATA_METADATA || n == SNAPSHOT_DATA_SNAPSHOT,
    {
        match self {
            SnapshotDataType::Metadata => SNAPSHOT_DATA_METADATA,
            SnapshotDataType::Snapshot => SNAPSHOT_DATA_SNAPSHOT,
        }
    }

    /// The file that a chunk tagged `n` belongs to.
    pub fn kind_of(n: i32) -> (t: SnapshotDataType)
        ensures
            t == snapshot_data_kind(n),
    {
        if n == SNAPSHOT_DATA_METADATA {
            SnapshotDataType::Metadata
        } else {
            SnapshotDataType::Snapshot
        }
    }
}

/// Identity and address of one server of the cluster.
#[derive(Debug, PartialEq, Eq)]
pub struct ServerInfo {
    pub server_id: u64,
    pub server_addr: String,
}

/// Mathematical value of a `ServerInfo`.
pub struct ServerInfoView {
    pub server_id: u64,
    pub server_addr: Seq<char>,
}

impl View for ServerInfo {
    type V = ServerInfoView;

    open spec fn view(&self) -> ServerInfoView {
        ServerInfoView { server_id: self.server_id, server_addr: self.server_addr@ }
    }
}

impl DeepView for ServerInfo {
    type V = ServerInfoView;

    open spec fn deep_view(&self) -> ServerInfoView {
        self@
    }
}

impl Clone for ServerInfo {
    fn clone(&self) -> (r: Self)
        ensures
            r@ == self@,
    {
        ServerInfo { server_id: self.server_id, server_addr: self.server_addr.clone() }
    }
}

/// One entry of the replicated log.
#[derive(Debug, PartialEq, Eq)]
pub struct LogEntry {
    pub index: u64,
    pub term: u64,
    pub entry_type: i32,
    pub data: Vec<u8>,
}

/// Mathematical value of a `LogEntry`.
pub struct LogEntryView {
    pub index: u64,
    pub term: u64,
    pub entry_type: i32,
    pub data: Seq<u8>,
}

impl View for LogEntry {
    type V = LogEntryView;

    open spec fn view(&self) -> LogEntryView {
        LogEntryView {
            index: self.index,
            term: self.term,
            entry_type: self.entry_type,
            data: self.data@,
        }
    }
}

impl DeepView for LogEntry {
    type V = LogEntryView;

    open spec fn deep_view(&self) -> LogEntryView {
        self@
    }
}

impl Clone for LogEntry {
    fn clone(&self) -> (r: Self)
        ensures
            r@ == self@,
    {
        LogEntry {
            index: self.index,
            term: self.term,
            entry_type: self.entry_type,
            data: self.data.clone(),
        }
    }
}

/// The synthetic entry `(index 0, term 0)` that stands before the first entry of every log.
pub open spec fn virtual_entry() -> LogEntryView {
    LogEntryView { index: 0, term: 0, entry_type: ENTRY_TYPE_NOOP, data: Seq::empty() }
}

/// A copy of a list of servers.
pub fn clone_servers(servers: &Vec<ServerInfo>) -> (r: Vec<ServerInfo>)
    ensures
        r.deep_view() == servers.deep_view(),
{
    let mut out: Vec<ServerInfo> = Vec::new();
    let mut i: usize = 0;
    while i < servers.len()
        invariant
            i <= servers.len(),
            out.len() == i,
            forall|j: int| 0 <= j < i ==> out[j]@ == servers[j]@,
        decreases servers.len() - i,
    {
        out.push(servers[i].clone());
        i += 1;
    }
    assert(out.deep_view() =~= servers.deep_view());
    out
}

/// A copy of a list of log entries.
pub fn clone_entries(entries: &Vec<LogEntry>) -> (r: Vec<LogEntry>)
    ensures
        r.deep_view() == entries.deep_view(),
{
    let mut out: Vec<LogEntry> = Vec::new();
    let mut i: usize = 0;
    while i < entries.len()
        invariant
            i <= entries.len(),
            out.len() == i,
            forall|j: int| 0 <= j < i ==> out[j]@ == entries[j]@,
        decreases entries.len() - i,
    {
        out.push(entries[i].clone());
        i += 1;
    }
    assert(out.deep_view() =~= entries.deep_view());
    out
}

/// Leader to follower: replicate entries, or assert leadership with none.
#[derive(Debug)]
pub struct AppendEntriesRequest {
    pub term: u64,
    pub leader_id: u64,
    pub prev_log_index: u64,
    pub prev_log_term: u64,
    pub entries: Vec<LogEntry>,
    pub leader_commit: u64,
}

/// An `AppendEntries` request as a mathematical value.
pub struct AppendEntriesRequestView {
    pub term: u64,
    pub leader_id: u64,
    pub prev_log_index: u64,
    pub prev_log_term: u64,
    pub entries: Seq<LogEntryView>,
    pub leader_commit: u64,
}

impl View for AppendEntriesRequest {
    type V = AppendEntriesRequestView;

    open spec fn view(&self) -> AppendEntriesRequestView {
        AppendEntriesRequestView {
            term: self.term,
            leader_id: self.leader_id,
            prev_log_index: self.prev_log_index,
            prev_log_term: self.prev_log_term,
            entries: self.entries.deep_view(),
            leader_commit: self.leader_commit,
        }
    }
}

#[derive(Debug, Clone, Copy, PartialEq, Eq, Structural)]
pub struct AppendEntriesResponse {
    pub term: u64,
    pub success: bool,
}

/// Candidate to every peer: ask for a vote.
#[derive(Debug, Clone, Copy, PartialEq, Eq, Structural)]
pub struct RequestVoteRequest {
    pub term: u64,
    pub candidate_id: u64,
    pub last_log_index: u64,
    pub last_log_term: u64,
}

#[derive(Debug, Clone, Copy, PartialEq, Eq, Structural)]
pub struct RequestVoteResponse {
    pub term: u64,
    pub vote_granted: bool,
}

/// Leader to a lagging follower: one chunk of the latest snapshot.
#[derive(Debug)]
pub struct InstallSnapshotRequest {
    pub term: u64,
    pub leader_id: u64,
    pub last_included_index: u64,
    pub last_included_term: u64,
    pub offset: u64,
    pub data: Vec<u8>,
    pub snapshot_data_type: i32,
    pub done: bool,
}

#[derive(Debug, Clone, Copy, PartialEq, Eq, Structural)]
pub struct InstallSnapshotResponse {
    pub term: u64,
}

#[derive(Debug, Clone, Copy, PartialEq, Eq, Structural)]
pub struct GetLeaderRequest {}

#[derive(Debug)]
pub struct GetLeaderResponse {
    pub leader: Option<ServerInfo>,
    pub redirect_to: Option<ServerInfo>,
}

#[derive(Debug, Clone, Copy, PartialEq, Eq, Structural)]
pub struct GetConfigurationRequest {}

#[derive(Debug)]
pub struct GetConfigurationResponse {
    pub servers: Vec<ServerInfo>,
}

#[derive(Debug)]
pub struct SetConfigurationRequest {
    pub new_servers: Vec<ServerInfo>,
}

#[derive(Debug, Clone, Copy, PartialEq, Eq, Structural)]
pub struct SetConfigurationResponse {
    pub success: bool,
}

#[derive(Debug)]
pub struct ProposeRequest {
    pub data: Vec<u8>,
}

/// Answer to a proposal; on failure `index` and `leader_addr` hint at the leader, if known.
#[derive(Debug)]
pub struct ProposeResponse {
    pub success: bool,
    pub index: Option<u64>,
    pub leader_addr: Option<String>,
}

/// Every kind is recovered from its wire number.
pub proof fn lemma_entry_type_roundtrip(t: EntryType)
    ensures
        entry_type_of_number(entry_type_number(t)) == Some(t),
        entry_kind(entry_type_number(t)) == t,
{
}

} // verus!
