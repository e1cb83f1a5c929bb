//! The role state machine of a replica as mathematics.
//!
//! `ConsensusView` is the value of a replica's consensus state. Each function here
//! says what one event makes of that state; the handlers of `Consensus` are proved
//! to compute exactly these functions.
use vstd::prelude::*;
use crate::raft::config::{
    decoded_config, encoded_config, has_server, ConfigState, ConfigView, NONE_SERVER_ID,
    SNAPSHOT_LOG_LENGTH_THRESHOLD, SNAPSHOT_TRUNK_SIZE,
};
use crate::raft::consensus::State;
use crate::raft::log::{consecutive_from, LogView};
use crate::raft::metadata::MetadataManagerView;
use crate::raft::peer::{
    first_with_id, has_peer, has_vote_quorum, in_servers, joining_map, joins, leader_reset_map,
    membership_map, quorum_match_index, vote_reset_map, PeerView,
};
use crate::raft::proto::{
    entry_kind, entry_type_number, AppendEntriesRequestView, AppendEntriesResponse, EntryType,
    LogEntryView,
    RequestVoteRequest, RequestVoteResponse, ServerInfoView, SnapshotDataType,
    ENTRY_TYPE_CONFIGURATION,
};
use crate::raft::snapshot::SnapshotView;

verus! {

/// Something that a handler asks its caller to do, as a mathematical value.
pub enum EffectView {
    ResetElectionTimer,
    ResetHeartbeatTimer,
    ResetSnapshotTimer,
    StopTimers,
    PersistLog,
    Replicate,
    Apply(Seq<u8>),
    RestoreSnapshot(Seq<char>),
}

/// One chunk of the stream that carries a snapshot to a peer: first the metadata
/// sidecar, then the state-machine snapshot.
#[derive(Debug, PartialEq, Eq, Clone, Copy, Structural)]
pub struct SnapshotChunk {
    /// The file that the chunk is read from.
    pub data_type: SnapshotDataType,
    /// Offset of the chunk in its file.
    pub local_offset: u64,
    /// Offset of the chunk in the whole stream.
    pub global_offset: u64,
    /// Length of the chunk in bytes.
    pub len: u64,
    /// Whether this is the last chunk of the stream.
    pub done: bool,
}

/// The smaller of `SNAPSHOT_TRUNK_SIZE` and `rest`.
pub open spec fn chunk_len(rest: u64) -> u64 {
    if rest < SNAPSHOT_TRUNK_SIZE {
        rest
    } else {
        SNAPSHOT_TRUNK_SIZE as u64
    }
}

/// The chunk that begins at offset `global_offset` of the stream made of a
/// metadata sidecar of `meta_size` bytes and a snapshot of `snap_size` bytes, or
/// `None` at and after the end of the stream.
pub open spec fn chunk_at(meta_size: u64, snap_size: u64, global_offset: u64) -> Option<SnapshotChunk> {
    if global_offset < meta_size {
        Some(
            SnapshotChunk {
                data_type: SnapshotDataType::Metadata,
                local_offset: global_offset,
                global_offset,
                len: chunk_len((meta_size - global_offset) as u64),
                done: false,
            },
        )
    } else if global_offset - meta_size < snap_size {
        let local = (global_offset - meta_size) as u64;
        Some(
            SnapshotChunk {
                data_type: SnapshotDataType::Snapshot,
                local_offset: local,
                global_offset,
                len: chunk_len((snap_size - local) as u64),
                done: local + chunk_len((snap_size - local) as u64) >= snap_size,
            },
        )
    } else {
        None
    }
}

/// The configuration that a replica starts with: the snapshot's, else the most
/// recent one in the log, else the stable configuration of the given servers and itself.
pub open spec fn initial_config(
    snapshot: SnapshotView,
    log: LogView,
    initial_servers: Seq<ServerInfoView>,
    own: ServerInfoView,
) -> ConfigView {
    let fallback = ConfigView {
        old_servers: Seq::empty(),
        new_servers: if has_server(initial_servers, own.server_id) {
            initial_servers
        } else {
            initial_servers.push(own)
        },
    };
    match snapshot.configuration {
        Some(config) => config,
        None => match log.last_configuration_data() {
            Some(data) => match decoded_config(data) {
                Some(config) => config,
                None => fallback,
            },
            None => fallback,
        },
    }
}

/// Everything that can happen to the consensus state of a replica.
pub enum Event {
    /// An `AppendEntries` request arrived.
    AppendEntries(AppendEntriesRequestView),
    /// A `RequestVote` request arrived.
    RequestVote(RequestVoteRequest),
    /// A chunk of a snapshot arrived from the leader `leader_id` of term `term`.
    InstallSnapshotChunk { term: u64, leader_id: u64, data_type: SnapshotDataType, offset: u64 },
    /// A received snapshot was put in place.
    InstallSnapshotDone { snapshot: SnapshotView, file: Option<Seq<char>> },
    /// A client proposed a payload.
    Propose(Seq<u8>),
    /// The caller had the leader append an entry of its own.
    Replicate { kind: EntryType, data: Seq<u8> },
    /// A client asked for a membership change.
    SetConfiguration(Seq<ServerInfoView>),
    /// The election timer fired.
    ElectionTimeout,
    /// The heartbeat timer fired.
    HeartbeatTimeout,
    /// The snapshot timer fired.
    SnapshotTimeout,
    /// The state machine was asked to write a snapshot.
    SnapshotWritten { index: u64, term: u64, config: ConfigView, file_exists: bool },
    /// A peer answered a vote request.
    VoteResponse { peer_id: u64, vote: Option<RequestVoteResponse> },
    /// All answers to the vote requests of an election are in.
    ElectionConcluded,
    /// A peer answered an `AppendEntries` request.
    AppendResponse {
        peer_id: u64,
        prev_log_index: u64,
        sent: u64,
        response: Option<AppendEntriesResponse>,
    },
    /// A peer answered a chunk of a snapshot.
    SnapshotResponse { peer_id: u64, done: bool, response_term: Option<u64> },
    /// A round of replication ended.
    RoundEnded,
    /// The replica was shut down.
    Shutdown,
    /// The caller took the effects.
    EffectsTaken,
}

/// Whether a replica starts from the snapshot whose metadata it found on disk: it
/// does where the snapshot is one, its file `file` exists, and the log can start
/// after it.
pub open spec fn starts_from_snapshot(snapshot: SnapshotView, file: Option<Seq<char>>) -> bool {
    snapshot.last_included_index > 0 && file is Some && snapshot.last_included_index < u64::MAX - 1
}

/// The snapshot metadata that a replica starts with: what it found on disk where
/// it starts from that snapshot, else that of a replica without a snapshot.
pub open spec fn initial_snapshot(snapshot: SnapshotView, file: Option<Seq<char>>) -> SnapshotView {
    if starts_from_snapshot(snapshot, file) {
        snapshot
    } else {
        SnapshotView {
            last_included_index: 0,
            last_included_term: 0,
            configuration: None,
            snapshot_dir: snapshot.snapshot_dir,
        }
    }
}

/// The log that a replica starts with beside a snapshot that ends at `index`: what
/// it found on disk without the prefix that the snapshot covers, or an empty log
/// where the log on disk begins too late to continue the snapshot.
pub open spec fn initial_log(log: LogView, index: u64) -> LogView {
    if log.start_index <= index + 1 {
        log.truncate_prefix(index)
    } else {
        LogView { entries: Seq::empty(), start_index: (index + 1) as u64, ..log }
    }
}

/// What a leader does for one peer in a round of replication, as a mathematical value.
pub enum AppendPlanView {
    /// Nothing: this replica is not the leader.
    NotLeader,
    /// Nothing: the peer table holds no such peer.
    PeerMissing,
    /// The peer lags behind the start of the log and needs the snapshot.
    InstallSnapshot,
    /// Send `request` to the peer at `addr`.
    Send { addr: Seq<char>, request: AppendEntriesRequestView },
}

/// The consensus state of a replica as a mathematical value.
pub struct ConsensusView {
    pub server_id: u64,
    pub server_addr: Seq<char>,
    pub metadata: MetadataManagerView,
    pub state: State,
    pub current_config: ConfigView,
    pub node_config_state: ConfigState,
    pub log: LogView,
    pub commit_index: u64,
    pub last_applied: u64,
    pub leader_id: u64,
    pub peers: Seq<PeerView>,
    pub snapshot: SnapshotView,
    /// While a snapshot is being received: the size of its metadata sidecar, known
    /// once the first chunk of the snapshot itself has arrived.
    pub incoming_meta_size: Option<u64>,
    pub effects: Seq<EffectView>,
}

/// The payload of the entry that a new leader appends: the bytes of `None`.
pub open spec fn none_data() -> Seq<u8> {
    seq![78u8, 111u8, 110u8, 101u8]
}

/// The index after `index`, or `u64::MAX` where there is none.
pub open spec fn index_after(index: u64) -> u64 {
    if index < u64::MAX {
        (index + 1) as u64
    } else {
        u64::MAX
    }
}

/// Whether entry `e` of a request is not yet in `log`: it lies at or after the start
/// of the log, and either beyond its end or on an entry of another term.
pub open spec fn is_new_entry(log: LogView, e: LogEntryView) -> bool {
    e.index >= log.start_index && (e.index >= log.next_index() || log.entries[e.index
        - log.start_index].term != e.term)
}

/// The position at or after `k` of the first entry of `entries` that is not yet in
/// `log`, or the length of `entries` where all are.
pub open spec fn first_new(log: LogView, entries: Seq<LogEntryView>, k: int) -> int
    decreases entries.len() - k,
{
    if k < 0 || k >= entries.len() {
        entries.len() as int
    } else if is_new_entry(log, entries[k]) {
        k
    } else {
        first_new(log, entries, k + 1)
    }
}

/// The position that `first_new` finds holds an entry that is not yet in the log.
pub proof fn lemma_first_new_is_new(log: LogView, entries: Seq<LogEntryView>, k: int)
    requires
        0 <= k,
    ensures
        k <= first_new(log, entries, k) || first_new(log, entries, k) == entries.len(),
        first_new(log, entries, k) <= entries.len(),
        first_new(log, entries, k) < entries.len() ==> is_new_entry(
            log,
            entries[first_new(log, entries, k)],
        ),
    decreases entries.len() - k,
{
    if k < entries.len() && !is_new_entry(log, entries[k]) {
        lemma_first_new_is_new(log, entries, k + 1);
    }
}

impl ConsensusView {
    pub open spec fn current_term(self) -> u64 {
        self.metadata.metadata.current_term
    }

    pub open spec fn voted_for(self) -> u64 {
        self.metadata.metadata.voted_for
    }

    /// The index of the last entry, the snapshot's where the log is empty.
    pub open spec fn last_log_index(self) -> u64 {
        self.log.last_index(self.snapshot.last_included_index)
    }

    /// The term of the last entry, the snapshot's where the log is empty.
    pub open spec fn last_log_term(self) -> u64 {
        self.log.last_term(self.snapshot.last_included_term)
    }

    /// The membership flags of this replica and of every peer are those that the
    /// current configuration gives.
    pub open spec fn flags_consistent(self) -> bool {
        &&& self.node_config_state == self.current_config.node_state(self.server_id)
        &&& forall|i: int|
            0 <= i < self.peers.len() ==> (#[trigger] self.peers[i]).config_state
                == self.current_config.node_state(self.peers[i].id)
    }

    /// What holds of the state between any two events: the log is well formed and
    /// starts right after the snapshot, what the snapshot covers is applied, nothing
    /// is applied that is not committed, and the membership flags are those that the
    /// current configuration gives.
    pub open spec fn inv(self) -> bool {
        &&& self.log.wf()
        &&& self.log.start_index == self.snapshot.last_included_index + 1
        &&& self.snapshot.last_included_index <= self.last_applied
        &&& self.last_applied <= self.commit_index
        &&& self.flags_consistent()
    }

    /// The state with one more effect asked for.
    pub open spec fn emit(self, effect: EffectView) -> ConsensusView {
        ConsensusView { effects: self.effects.push(effect), ..self }
    }

    /// The state after this replica saw the term `new_term`: a follower without
    /// a leader, in the new term without a vote where the term is higher.
    pub open spec fn step_down(self, new_term: u64) -> ConsensusView {
        if new_term < self.current_term() {
            self
        } else {
            let metadata = self.metadata.with_term(new_term);
            let leader_id = if new_term > self.current_term() || self.state != State::Follower {
                NONE_SERVER_ID
            } else {
                self.leader_id
            };
            ConsensusView {
                state: State::Follower,
                metadata: metadata.synced(),
                leader_id,
                ..self
            }.emit(EffectView::ResetElectionTimer)
        }
    }

    /// The state with `config` as the current configuration and all membership flags
    /// recomputed from it.
    pub open spec fn with_config(self, config: ConfigView) -> ConsensusView {
        ConsensusView {
            current_config: config,
            node_config_state: config.node_state(self.server_id),
            peers: self.peers.map_values(membership_map(config)),
            ..self
        }
    }

    /// The state after shutting down: a follower without leader and without peers,
    /// its timers stopped.
    pub open spec fn shutdown(self) -> ConsensusView {
        ConsensusView {
            state: State::Follower,
            leader_id: NONE_SERVER_ID,
            peers: Seq::empty(),
            ..self
        }.emit(EffectView::StopTimers)
    }

    /// The peers that join the peer table when the joint configuration `config` is appended.
    pub open spec fn joining_peers(self, config: ConfigView) -> Seq<PeerView> {
        config.new_servers.filter(joins(self.server_id, self.peers)).map_values(
            joining_map(index_after(self.last_log_index())),
        )
    }

    /// The state after the configuration `config` was appended to the log (pending)
    /// or was committed.
    pub open spec fn apply_configuration(self, config: ConfigView, committed: bool) -> ConsensusView {
        if committed {
            let switched = self.with_config(config);
            if config.is_stable() {
                let kept = ConsensusView {
                    peers: switched.peers.filter(in_servers(config.new_servers)),
                    ..switched
                };
                if !kept.node_config_state.newing {
                    kept.shutdown()
                } else {
                    kept
                }
            } else {
                switched
            }
        } else {
            let joined = if config.is_joint() {
                ConsensusView { peers: self.peers + self.joining_peers(config), ..self }
            } else {
                self
            };
            joined.with_config(config)
        }
    }

    /// The state after a leader put an entry of kind `kind` with payload `data` at
    /// the end of its log, and whether it did: only a leader whose log has room does.
    pub open spec fn append_entry(self, kind: EntryType, data: Seq<u8>) -> (ConsensusView, bool) {
        if self.state != State::Leader || self.log.next_index() >= u64::MAX {
            (self, false)
        } else {
            let entry = LogEntryView {
                index: self.log.next_index() as u64,
                term: self.current_term(),
                entry_type: entry_type_number(kind),
                data,
            };
            (
                (ConsensusView {
                    log: LogView { entries: self.log.entries.push(entry), ..self.log },
                    ..self
                }).emit(EffectView::PersistLog),
                true,
            )
        }
    }

    /// The state after a leader appended an entry of kind `kind` with payload
    /// `data` and asked for a round of replication, and whether it did. A payload
    /// of kind `Configuration` that encodes a configuration takes effect as pending.
    pub open spec fn replicate(self, kind: EntryType, data: Seq<u8>) -> (ConsensusView, bool) {
        let (appended, done) = self.append_entry(kind, data);
        if done {
            let switched = if kind == EntryType::Configuration {
                match decoded_config(data) {
                    Some(config) => appended.apply_configuration(config, false),
                    None => appended,
                }
            } else {
                appended
            };
            (switched.emit(EffectView::Replicate), true)
        } else {
            (self, false)
        }
    }

    /// The configuration that a membership change leads to next: the joint one towards
    /// `target` from a stable configuration, the final stable one (no target) from a
    /// joint configuration.
    pub open spec fn next_config(self, target: Option<Seq<ServerInfoView>>) -> Option<ConfigView> {
        match target {
            Some(servers) => if servers.len() > 0 && self.current_config.is_stable() {
                Some(self.current_config.transition_to(servers))
            } else {
                None
            },
            None => if self.current_config.is_joint() {
                Some(self.current_config.finalized())
            } else {
                None
            },
        }
    }

    /// State and outcome after a leader was asked to append the next configuration
    /// of a membership change: the configuration is appended in its encoded form,
    /// takes effect as pending, and a round of replication is asked for.
    pub open spec fn config_change(self, target: Option<Seq<ServerInfoView>>) -> (
        ConsensusView,
        bool,
    ) {
        if self.state != State::Leader {
            (self, false)
        } else {
            match self.next_config(target) {
                Some(config) => {
                    let (appended, done) = self.append_entry(
                        EntryType::Configuration,
                        encoded_config(config),
                    );
                    if done {
                        (appended.apply_configuration(config, false).emit(EffectView::Replicate), true)
                    } else {
                        (self, false)
                    }
                },
                None => (self, false),
            }
        }
    }

    /// The state after a leader whose joint configuration was committed appended
    /// the stable configuration that ends the change.
    pub open spec fn append_final_config(self) -> ConsensusView {
        self.config_change(None).0
    }

    /// The state after the committed entry `e` took effect: a payload is handed
    /// to the state machine, a configuration becomes the committed one.
    pub open spec fn apply_entry(self, e: LogEntryView) -> ConsensusView {
        match entry_kind(e.entry_type) {
            EntryType::Data => self.emit(EffectView::Apply(e.data)),
            EntryType::Noop => self,
            EntryType::Configuration => match decoded_config(e.data) {
                Some(config) => {
                    let switched = self.apply_configuration(config, true);
                    if config.is_joint() {
                        switched.append_final_config()
                    } else {
                        switched
                    }
                },
                None => self,
            },
        }
    }

    /// The state after the entries with indices in `(from, to]` took effect in
    /// order; it stops at an index that the log does not hold.
    pub open spec fn apply_range(self, from: u64, to: u64) -> ConsensusView
        decreases to - from,
    {
        if from >= to {
            self
        } else {
            let index = (from + 1) as u64;
            match self.log.entry(index) {
                Some(e) => (ConsensusView {
                    last_applied: index,
                    ..self.apply_entry(e)
                }).apply_range(index, to),
                None => self,
            }
        }
    }

    /// The state after the commit index rose to `n`: every entry after the last
    /// applied one up to `n` took effect, once and in order. Unchanged where the
    /// commit index would not rise.
    pub open spec fn advance_commit(self, n: u64) -> ConsensusView {
        if n > self.commit_index {
            ConsensusView { commit_index: n, ..self.apply_range(self.last_applied, n) }
        } else {
            self
        }
    }

    /// The commit index that a follower adopts when its leader has committed `leader_commit`.
    pub open spec fn follower_commit_target(self, leader_commit: u64) -> u64 {
        if leader_commit <= self.last_log_index() {
            leader_commit
        } else {
            self.last_log_index()
        }
    }

    /// The index that a quorum of every non-empty server set has replicated.
    pub open spec fn leader_commit_target(self) -> u64 {
        quorum_match_index(self.peers, self.node_config_state, self.last_log_index())
    }

    /// Whether a leader may commit up to `n`: the entry at `n` is of its own term,
    /// or `n` is covered by the snapshot.
    pub open spec fn may_commit(self, n: u64) -> bool {
        n <= self.snapshot.last_included_index || match self.log.entry(n) {
            Some(e) => e.term == self.current_term(),
            None => false,
        }
    }

    /// The state after a leader reconsidered its commit index.
    pub open spec fn leader_advance_commit_index(self) -> ConsensusView {
        let n = self.leader_commit_target();
        if self.state == State::Leader && n > self.commit_index && self.may_commit(n) {
            self.advance_commit(n)
        } else {
            self
        }
    }

    /// Whether the log agrees with the entry that precedes the entries of `req`.
    pub open spec fn prev_matches(self, req: AppendEntriesRequestView) -> bool {
        if req.prev_log_index == 0 {
            true
        } else if req.prev_log_index == self.snapshot.last_included_index {
            req.prev_log_term == self.snapshot.last_included_term
        } else if req.prev_log_index < self.log.start_index {
            true
        } else {
            match self.log.entry(req.prev_log_index) {
                Some(e) => e.term == req.prev_log_term,
                None => false,
            }
        }
    }

    /// The state after the configurations among `entries[k..]` were applied as pending.
    pub open spec fn apply_pending_configs(self, entries: Seq<LogEntryView>, k: int) -> ConsensusView
        decreases entries.len() - k,
    {
        if k < 0 || k >= entries.len() {
            self
        } else {
            let next = if entries[k].entry_type == ENTRY_TYPE_CONFIGURATION {
                match decoded_config(entries[k].data) {
                    Some(config) => self.apply_configuration(config, false),
                    None => self,
                }
            } else {
                self
            };
            next.apply_pending_configs(entries, k + 1)
        }
    }

    /// Whether the entries `tail`, the first of which is not yet in the log, can
    /// take their place: they leave no gap, rewrite nothing committed, and fit.
    pub open spec fn tail_fits(self, tail: Seq<LogEntryView>) -> bool {
        &&& tail.len() > 0
        &&& tail[0].index <= self.log.next_index()
        &&& tail[0].index >= self.log.next_index() || tail[0].index > self.commit_index
        &&& tail[0].index + tail.len() <= u64::MAX
    }

    /// The state after the entries `tail` replaced whatever the log held from the
    /// index of the first of them on.
    pub open spec fn install_tail(self, tail: Seq<LogEntryView>) -> ConsensusView {
        let kept = self.log.truncate_suffix((tail[0].index - 1) as u64);
        (ConsensusView {
            log: LogView { entries: kept.entries + tail, ..kept },
            ..self
        }).emit(EffectView::PersistLog).apply_pending_configs(tail, 0)
    }

    /// The state after a follower took in the entries of a request, or `None`
    /// where it must refuse them.
    pub open spec fn accept_entries(self, entries: Seq<LogEntryView>) -> Option<ConsensusView> {
        let k = first_new(self.log, entries, 0);
        if k >= entries.len() {
            Some(self)
        } else if self.tail_fits(entries.skip(k)) {
            Some(self.install_tail(entries.skip(k)))
        } else {
            None
        }
    }

    /// The state in which a replica answers an `AppendEntries` request of a term that
    /// is not stale: it follows the sender.
    pub open spec fn follow(self, term: u64, leader_id: u64) -> ConsensusView {
        let stepped = if term > self.current_term() || self.state != State::Follower {
            self.step_down(term)
        } else {
            self
        };
        ConsensusView { leader_id, ..stepped.emit(EffectView::ResetElectionTimer) }
    }

    /// State and answer of a replica after an `AppendEntries` request.
    pub open spec fn handle_append_entries(self, req: AppendEntriesRequestView) -> (
        ConsensusView,
        AppendEntriesResponse,
    ) {
        if req.term == 0 || req.term < self.current_term() {
            (self, AppendEntriesResponse { term: self.current_term(), success: false })
        } else {
            let following = self.follow(req.term, req.leader_id);
            let refused = (
                following,
                AppendEntriesResponse { term: following.current_term(), success: false },
            );
            if !consecutive_from(req.entries, req.prev_log_index + 1) || !following.prev_matches(
                req,
            ) {
                refused
            } else {
                match following.accept_entries(req.entries) {
                    Some(accepted) => {
                        let done = accepted.advance_commit(
                            accepted.follower_commit_target(req.leader_commit),
                        );
                        (done, AppendEntriesResponse { term: done.current_term(), success: true })
                    },
                    None => refused,
                }
            }
        }
    }

    /// Whether the log of a candidate that ends in `(last_log_index, last_log_term)`
    /// is at least as up to date as this one.
    pub open spec fn log_up_to_date(self, last_log_index: u64, last_log_term: u64) -> bool {
        last_log_term > self.last_log_term() || (last_log_term == self.last_log_term()
            && last_log_index >= self.last_log_index())
    }

    /// Whether a replica that accepted the term of `req` grants the vote it asks for.
    pub open spec fn grants_vote(self, req: RequestVoteRequest) -> bool {
        &&& req.candidate_id != NONE_SERVER_ID
        &&& self.log_up_to_date(req.last_log_index, req.last_log_term)
        &&& self.voted_for() == NONE_SERVER_ID || self.voted_for() == req.candidate_id
        &&& self.current_config.has_id(req.candidate_id) || self.current_config.is_empty()
    }

    /// State and answer of a replica after a `RequestVote` request.
    pub open spec fn handle_request_vote(self, req: RequestVoteRequest) -> (
        ConsensusView,
        RequestVoteResponse,
    ) {
        if req.term == 0 || req.term < self.current_term() {
            (self, RequestVoteResponse { term: self.current_term(), vote_granted: false })
        } else {
            let stepped = if req.term > self.current_term() {
                self.step_down(req.term)
            } else {
                self
            };
            if stepped.grants_vote(req) {
                (
                    (ConsensusView {
                        metadata: stepped.metadata.with_vote(req.candidate_id).synced(),
                        state: State::Follower,
                        leader_id: NONE_SERVER_ID,
                        ..stepped
                    }).emit(EffectView::ResetElectionTimer),
                    RequestVoteResponse { term: stepped.current_term(), vote_granted: true },
                )
            } else {
                (stepped, RequestVoteResponse { term: stepped.current_term(), vote_granted: false })
            }
        }
    }

    /// Whether an election timeout starts an election: not on a leader, and not in
    /// the last term there is.
    pub open spec fn starts_election(self) -> bool {
        self.state != State::Leader && self.current_term() < u64::MAX
    }

    /// The state after an election timeout.
    pub open spec fn handle_election_timeout(self) -> ConsensusView {
        if self.starts_election() {
            (ConsensusView {
                state: State::Candidate,
                metadata: self.metadata.with_term((self.current_term() + 1) as u64).with_vote(
                    self.server_id,
                ).synced(),
                leader_id: NONE_SERVER_ID,
                peers: self.peers.map_values(vote_reset_map()),
                ..self
            }).emit(EffectView::ResetElectionTimer)
        } else {
            self.emit(EffectView::ResetElectionTimer)
        }
    }

    /// The request that a candidate sends to every peer.
    pub open spec fn vote_request(self) -> RequestVoteRequest {
        RequestVoteRequest {
            term: self.current_term(),
            candidate_id: self.server_id,
            last_log_index: self.last_log_index(),
            last_log_term: self.last_log_term(),
        }
    }

    /// The state with peer `i` replaced.
    pub open spec fn with_peer(self, i: int, peer: PeerView) -> ConsensusView {
        ConsensusView { peers: self.peers.update(i, peer), ..self }
    }

    /// The state after the answer of peer `peer_id` to a vote request arrived;
    /// `None` stands for a failed call.
    pub open spec fn handle_request_vote_response(
        self,
        peer_id: u64,
        response: Option<RequestVoteResponse>,
    ) -> ConsensusView {
        if self.state != State::Candidate {
            self
        } else {
            match response {
                None => self,
                Some(r) => if r.term > self.current_term() {
                    self.step_down(r.term)
                } else if r.vote_granted && r.term == self.current_term() && has_peer(
                    self.peers,
                    peer_id,
                ) {
                    let i = first_with_id(self.peers, peer_id);
                    self.with_peer(i, PeerView { vote_granted: true, ..self.peers[i] })
                } else {
                    self
                },
            }
        }
    }

    /// The state after a candidate became leader: every peer reset, an entry of
    /// kind `Noop` of the new term appended.
    pub open spec fn become_leader(self) -> ConsensusView {
        if self.state != State::Candidate {
            self
        } else {
            let next = index_after(self.last_log_index());
            (ConsensusView {
                state: State::Leader,
                leader_id: self.server_id,
                peers: self.peers.map_values(leader_reset_map(next)),
                ..self
            }).replicate(EntryType::Noop, none_data()).0.emit(EffectView::ResetHeartbeatTimer)
        }
    }

    /// The state after a candidate counted its votes.
    pub open spec fn conclude_election(self) -> ConsensusView {
        if self.state == State::Candidate && has_vote_quorum(self.peers, self.node_config_state) {
            self.become_leader()
        } else {
            self
        }
    }

    /// The state after the answer of peer `peer_id` arrived to an `AppendEntries`
    /// request that carried `sent` entries after `prev_log_index`; `None` stands
    /// for a failed call.
    pub open spec fn handle_append_entries_response(
        self,
        peer_id: u64,
        prev_log_index: u64,
        sent: u64,
        response: Option<AppendEntriesResponse>,
    ) -> ConsensusView {
        if self.state != State::Leader {
            self
        } else {
            match response {
                None => self,
                Some(r) => if r.term > self.current_term() {
                    self.step_down(r.term)
                } else if !has_peer(self.peers, peer_id) {
                    self
                } else {
                    let i = first_with_id(self.peers, peer_id);
                    let peer = self.peers[i];
                    if r.success {
                        if prev_log_index + sent < u64::MAX {
                            self.with_peer(
                                i,
                                PeerView {
                                    match_index: (prev_log_index + sent) as u64,
                                    next_index: (prev_log_index + sent + 1) as u64,
                                    ..peer
                                },
                            )
                        } else {
                            self
                        }
                    } else if peer.next_index > 1 {
                        self.with_peer(
                            i,
                            PeerView { next_index: (peer.next_index - 1) as u64, ..peer },
                        )
                    } else {
                        self
                    }
                },
            }
        }
    }

    /// The state after the answer of peer `peer_id` arrived to a chunk of a
    /// snapshot, the last one where `done`; `None` stands for a failed call.
    pub open spec fn handle_install_snapshot_response(
        self,
        peer_id: u64,
        done: bool,
        response_term: Option<u64>,
    ) -> ConsensusView {
        if self.state != State::Leader {
            self
        } else {
            match response_term {
                None => self,
                Some(term) => if term > self.current_term() {
                    self.step_down(term)
                } else if done && has_peer(self.peers, peer_id) {
                    let i = first_with_id(self.peers, peer_id);
                    self.with_peer(
                        i,
                        PeerView {
                            next_index: index_after(self.snapshot.last_included_index),
                            match_index: self.snapshot.last_included_index,
                            ..self.peers[i]
                        },
                    )
                } else {
                    self
                },
            }
        }
    }

    /// The server that this replica takes for the leader, if it knows one.
    pub open spec fn known_leader(self) -> Option<ServerInfoView> {
        if self.state == State::Leader {
            Some(ServerInfoView { server_id: self.server_id, server_addr: self.server_addr })
        } else {
            self.leader_hint()
        }
    }

    /// The server that a replica that is not the leader points clients to.
    pub open spec fn leader_hint(self) -> Option<ServerInfoView> {
        if self.leader_id == NONE_SERVER_ID {
            None
        } else if has_peer(self.peers, self.leader_id) {
            let p = self.peers[first_with_id(self.peers, self.leader_id)];
            Some(ServerInfoView { server_id: p.id, server_addr: p.addr })
        } else if self.leader_id == self.server_id {
            Some(ServerInfoView { server_id: self.server_id, server_addr: self.server_addr })
        } else {
            None
        }
    }

    /// Whether the most recent configuration in the log is a joint one.
    pub open spec fn log_config_is_joint(self) -> bool {
        match self.log.last_configuration_data() {
            Some(data) => match decoded_config(data) {
                Some(config) => config.is_joint(),
                None => false,
            },
            None => false,
        }
    }

    /// Whether a request to change the membership is considered at all: only by a
    /// leader, for a non-empty target, and while no joint configuration is current
    /// or the latest in the log.
    pub open spec fn may_set_configuration(self, target: Seq<ServerInfoView>) -> bool {
        &&& self.state == State::Leader
        &&& target.len() > 0
        &&& !self.current_config.is_joint()
        &&& !self.log_config_is_joint()
    }

    /// State and outcome of a request to change the membership to `target`.
    pub open spec fn handle_set_configuration(self, target: Seq<ServerInfoView>) -> (
        ConsensusView,
        bool,
    ) {
        if self.may_set_configuration(target) {
            self.config_change(Some(target))
        } else {
            (self, false)
        }
    }

    /// This server as a member of the cluster.
    pub open spec fn own_info(self) -> ServerInfoView {
        ServerInfoView { server_id: self.server_id, server_addr: self.server_addr }
    }

    /// State and outcome of a proposal of `data`: index and term of the entry that
    /// a leader appended for it, if it did, and the server to turn to.
    pub open spec fn handle_propose(self, data: Seq<u8>) -> (
        ConsensusView,
        Option<(u64, u64)>,
        Option<ServerInfoView>,
    ) {
        if self.state != State::Leader {
            (self, None, self.leader_hint())
        } else {
            let (next, done) = self.replicate(EntryType::Data, data);
            (
                next,
                if done {
                    Some((self.log.next_index() as u64, self.current_term()))
                } else {
                    None
                },
                Some(self.own_info()),
            )
        }
    }

    /// Whether the entry that was appended at `index` in term `term` is committed:
    /// the commit index has reached it, and the log still holds an entry of that
    /// term there.
    pub open spec fn proposal_committed(self, index: u64, term: u64) -> bool {
        &&& index <= self.commit_index
        &&& self.log.start_index <= index < self.log.next_index()
        &&& self.log.entries[index - self.log.start_index].term == term
    }

    /// What a leader does for peer `peer_id` in a round of replication, or of
    /// heartbeats where `heartbeat`.
    pub open spec fn append_plan(self, peer_id: u64, heartbeat: bool) -> AppendPlanView {
        if self.state != State::Leader {
            AppendPlanView::NotLeader
        } else if !has_peer(self.peers, peer_id) {
            AppendPlanView::PeerMissing
        } else {
            let peer = self.peers[first_with_id(self.peers, peer_id)];
            if !heartbeat && peer.next_index < self.log.start_index {
                AppendPlanView::InstallSnapshot
            } else {
                let prev: u64 = if peer.next_index > 0 {
                    (peer.next_index - 1) as u64
                } else {
                    0
                };
                AppendPlanView::Send {
                    addr: peer.addr,
                    request: AppendEntriesRequestView {
                        term: self.current_term(),
                        leader_id: self.server_id,
                        prev_log_index: prev,
                        prev_log_term: self.log.prev_log_term(
                            prev,
                            self.snapshot.last_included_index,
                            self.snapshot.last_included_term,
                        ),
                        entries: if heartbeat {
                            Seq::empty()
                        } else {
                            self.log.pack(peer.next_index)
                        },
                        leader_commit: self.commit_index,
                    },
                }
            }
        }
    }

    /// The term that a snapshot at `index` carries: the term of the current
    /// snapshot where it ends there, else the term of the entry in the log, else 0.
    pub open spec fn snapshot_term(self, index: u64) -> u64 {
        if index == self.snapshot.last_included_index {
            self.snapshot.last_included_term
        } else {
            match self.log.entry(index) {
                Some(e) => e.term,
                None => 0,
            }
        }
    }

    /// Index and term of the snapshot that is due, if one is: more committed
    /// entries than the threshold are held in memory, and the last applied entry
    /// has a known term.
    pub open spec fn snapshot_due(self) -> Option<(u64, u64)> {
        if self.log.committed_len(self.commit_index) > SNAPSHOT_LOG_LENGTH_THRESHOLD
            && self.last_applied > 0 && self.snapshot_term(self.last_applied) > 0 {
            Some((self.last_applied, self.snapshot_term(self.last_applied)))
        } else {
            None
        }
    }

    /// The state after a snapshot timeout: the timer is restarted unless a snapshot is due.
    pub open spec fn handle_snapshot_timeout(self) -> ConsensusView {
        if self.snapshot_due() is Some {
            self
        } else {
            self.emit(EffectView::ResetSnapshotTimer)
        }
    }

    /// Whether a snapshot at `index` can become the current one: it is not behind
    /// the current one, covers nothing that is not applied, and leaves room for the
    /// log to start after it.
    pub open spec fn snapshot_usable(self, index: u64) -> bool {
        self.snapshot.last_included_index <= index && index <= self.last_applied && index
            < u64::MAX - 1
    }

    /// The state after the state machine was asked to write the snapshot at
    /// `(index, term)` with configuration `config`, and did (`file_exists`) or did
    /// not: a snapshot that was written and is usable becomes the current one, and
    /// the log drops the prefix that it covers. The timer is restarted either way.
    pub open spec fn complete_snapshot(
        self,
        index: u64,
        term: u64,
        config: ConfigView,
        file_exists: bool,
    ) -> ConsensusView {
        if file_exists && self.snapshot_usable(index) {
            (ConsensusView {
                snapshot: SnapshotView {
                    last_included_index: index,
                    last_included_term: term,
                    configuration: Some(config),
                    snapshot_dir: self.snapshot.snapshot_dir,
                },
                log: self.log.truncate_prefix(index),
                ..self
            }).emit(EffectView::PersistLog).emit(EffectView::ResetSnapshotTimer)
        } else {
            self.emit(EffectView::ResetSnapshotTimer)
        }
    }

    /// Whether a chunk of a snapshot is taken in: not one of a stale term or of term 0.
    pub open spec fn takes_chunk(self, term: u64) -> bool {
        !(term == 0 || term < self.current_term())
    }

    /// The size of the metadata sidecar of the snapshot that is being received, as
    /// known after a chunk of kind `kind` arrived at offset `offset` of the stream:
    /// a stream begins anew at offset 0, and the first chunk of the snapshot itself
    /// tells where the sidecar ended.
    pub open spec fn meta_size_after(self, kind: SnapshotDataType, offset: u64) -> Option<u64> {
        let before = if offset == 0 {
            None
        } else {
            self.incoming_meta_size
        };
        match kind {
            SnapshotDataType::Metadata => before,
            SnapshotDataType::Snapshot => match before {
                Some(size) => Some(size),
                None => Some(offset),
            },
        }
    }

    /// Whether the chunk of kind `kind` at offset `offset` of the stream is the
    /// first of its file, which is then created anew.
    pub open spec fn chunk_begins_file(self, kind: SnapshotDataType, offset: u64) -> bool {
        match kind {
            SnapshotDataType::Metadata => offset == 0,
            SnapshotDataType::Snapshot => offset == 0 || self.incoming_meta_size is None,
        }
    }

    /// The offset in its own file of the chunk of kind `kind` at offset `offset` of
    /// the stream.
    pub open spec fn chunk_local_offset(self, kind: SnapshotDataType, offset: u64) -> u64 {
        match kind {
            SnapshotDataType::Metadata => offset,
            SnapshotDataType::Snapshot => match self.meta_size_after(kind, offset) {
                Some(size) => if size <= offset {
                    (offset - size) as u64
                } else {
                    0
                },
                None => 0,
            },
        }
    }

    /// The state after a chunk of kind `kind` arrived at offset `offset` from the
    /// leader `leader_id` of term `term`: unchanged for a stale term or term 0,
    /// else following the sender.
    pub open spec fn handle_install_snapshot(
        self,
        term: u64,
        leader_id: u64,
        kind: SnapshotDataType,
        offset: u64,
    ) -> ConsensusView {
        if self.takes_chunk(term) {
            ConsensusView {
                incoming_meta_size: self.meta_size_after(kind, offset),
                ..self.follow(term, leader_id)
            }
        } else {
            self
        }
    }

    /// Whether the snapshot metadata `snapshot`, found on disk after a snapshot was
    /// received, is taken over: it is not behind the current snapshot and leaves
    /// room for the log to start after it.
    pub open spec fn takes_snapshot(self, snapshot: SnapshotView) -> bool {
        self.snapshot.last_included_index <= snapshot.last_included_index
            && snapshot.last_included_index < u64::MAX - 1
    }

    /// The state after a received snapshot was put in place: `snapshot` is the
    /// metadata now on disk, `file` the path of the latest snapshot file.
    ///
    /// Metadata that is behind the current snapshot changes nothing. Else it
    /// becomes the current snapshot and the log drops the prefix that it covers. A
    /// snapshot that does not lie behind what was applied is restored into the
    /// state machine; applied and commit index move up to it and its configuration
    /// becomes the current one.
    pub open spec fn finish_install(self, snapshot: SnapshotView, file: Option<Seq<char>>) -> ConsensusView {
        if self.takes_snapshot(snapshot) {
            let index = snapshot.last_included_index;
            let loaded = ConsensusView { snapshot, incoming_meta_size: None, ..self };
            let installed = if index >= self.last_applied {
                let restored = match file {
                    Some(path) => loaded.emit(EffectView::RestoreSnapshot(path)),
                    None => loaded,
                };
                let moved = ConsensusView {
                    last_applied: index,
                    commit_index: if self.commit_index >= index {
                        self.commit_index
                    } else {
                        index
                    },
                    ..restored
                };
                match snapshot.configuration {
                    Some(config) => moved.with_config(config),
                    None => moved,
                }
            } else {
                loaded
            };
            (ConsensusView { log: installed.log.truncate_prefix(index), ..installed }).emit(
                EffectView::PersistLog,
            )
        } else {
            ConsensusView { incoming_meta_size: None, ..self }
        }
    }

    /// The state after `event`, as the handler for it leaves it.
    pub open spec fn step(self, event: Event) -> ConsensusView {
        match event {
            Event::AppendEntries(request) => self.handle_append_entries(request).0,
            Event::RequestVote(request) => self.handle_request_vote(request).0,
            Event::InstallSnapshotChunk {
                term,
                leader_id,
                data_type,
                offset,
            } => self.handle_install_snapshot(term, leader_id, data_type, offset),
            Event::InstallSnapshotDone { snapshot, file } => self.finish_install(snapshot, file),
            Event::Propose(data) => self.handle_propose(data).0,
            Event::Replicate { kind, data } => self.replicate(kind, data).0,
            Event::SetConfiguration(target) => self.handle_set_configuration(target).0,
            Event::ElectionTimeout => self.handle_election_timeout(),
            Event::HeartbeatTimeout => self.emit(EffectView::ResetHeartbeatTimer),
            Event::SnapshotTimeout => self.handle_snapshot_timeout(),
            Event::SnapshotWritten { index, term, config, file_exists } => self.complete_snapshot(
                index,
                term,
                config,
                file_exists,
            ),
            Event::VoteResponse { peer_id, vote } => self.handle_request_vote_response(peer_id, vote),
            Event::ElectionConcluded => self.conclude_election(),
            Event::AppendResponse {
                peer_id,
                prev_log_index,
                sent,
                response,
            } => self.handle_append_entries_response(peer_id, prev_log_index, sent, response),
            Event::SnapshotResponse {
                peer_id,
                done,
                response_term,
            } => self.handle_install_snapshot_response(peer_id, done, response_term),
            Event::RoundEnded => self.leader_advance_commit_index(),
            Event::Shutdown => self.shutdown(),
            Event::EffectsTaken => ConsensusView { effects: Seq::empty(), ..self },
        }
    }
}

} // verus!
