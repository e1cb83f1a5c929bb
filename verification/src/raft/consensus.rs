//! The consensus engine of one replica.
//!
//! Every handler takes an event (a request, a response, a timer tick), changes
//! the state, and appends to `effects` what the caller has to do: reset or stop
//! timers, persist the log, hand payloads to the state machine, run a round of
//! replication. The caller drains `effects` and the commands queued in
//! `metadata` after each handler.
use vstd::prelude::*;
use vstd::string::StringExecFns;
use crate::raft::config::{
    contains_server, has_server, is_last_with_id, Config, ConfigState, NONE_SERVER_ID,
    SNAPSHOT_LOG_LENGTH_THRESHOLD, SNAPSHOT_TRUNK_SIZE,
};
use crate::raft::log::{consecutive_from, entries_of_data, Log, LogEntryData};
use crate::raft::laws::{lemma_advance_commit, lemma_step, lemma_step_down};
use crate::raft::metadata::{Metadata, MetadataManager};
use crate::raft::model::{
    chunk_at, first_new, index_after, initial_config, initial_log, initial_snapshot,
    lemma_first_new_is_new, none_data, starts_from_snapshot, AppendPlanView, ConsensusView,
    EffectView, Event, SnapshotChunk,
};
use crate::raft::peer::{
    joining_map, joins, membership_map, peer_for, Peer, PeerManager, PeerView,
};
use crate::raft::proto::{
    clone_entries, clone_servers, AppendEntriesRequest, AppendEntriesResponse, EntryType, GetConfigurationRequest,
    GetConfigurationResponse, GetLeaderRequest, GetLeaderResponse, InstallSnapshotRequest,
    InstallSnapshotResponse, LogEntry, LogEntryView, ProposeRequest, ProposeResponse,
    RequestVoteRequest, RequestVoteResponse, ServerInfo, ServerInfoView, SetConfigurationRequest,
    SetConfigurationResponse, SnapshotDataType, snapshot_data_kind, ENTRY_TYPE_CONFIGURATION,
};
use crate::raft::text::{decimal_chars, push_decimal};
use crate::raft::snapshot::{reloaded, snapshot_path, Snapshot, SnapshotMetadata};

verus! {

/// The role of a replica.
#[derive(Debug, PartialEq, Eq, Clone, Copy, Structural)]
pub enum State {
    Follower,
    Candidate,
    Leader,
}

/// Something that a handler asks its caller to do.
#[derive(Debug)]
pub enum Effect {
    /// Restart the election timer with a fresh randomized timeout.
    ResetElectionTimer,
    /// Restart the heartbeat timer.
    ResetHeartbeatTimer,
    /// Restart the snapshot timer.
    ResetSnapshotTimer,
    /// Stop all timers: the replica has shut down.
    StopTimers,
    /// Write the log to disk.
    PersistLog,
    /// Send the log to all peers, then let the leader reconsider its commit index.
    Replicate,
    /// Hand the payload to the state machine.
    Apply(Vec<u8>),
    /// Let the state machine restore itself from the file at the path.
    RestoreSnapshot(String),
}

impl DeepView for Effect {
    type V = EffectView;

    open spec fn deep_view(&self) -> EffectView {
        match self {
            Effect::ResetElectionTimer => EffectView::ResetElectionTimer,
            Effect::ResetHeartbeatTimer => EffectView::ResetHeartbeatTimer,
            Effect::ResetSnapshotTimer => EffectView::ResetSnapshotTimer,
            Effect::StopTimers => EffectView::StopTimers,
            Effect::PersistLog => EffectView::PersistLog,
            Effect::Replicate => EffectView::Replicate,
            Effect::Apply(data) => EffectView::Apply(data@),
            Effect::RestoreSnapshot(path) => EffectView::RestoreSnapshot(path@),
        }
    }
}

/// Why a leader-side append did not happen.
#[derive(Debug, PartialEq, Eq, Clone, Copy, Structural)]
pub enum ReplicateError {
    /// This replica is not the leader.
    NotLeader,
    /// The log has no index left.
    LogFull,
}

/// What a leader does for one peer in a round of replication.
#[derive(Debug)]
pub enum AppendPlan {
    /// Nothing: this replica is not the leader.
    NotLeader,
    /// Nothing: the peer table holds no such peer.
    PeerMissing,
    /// The peer lags behind the start of the log and needs the snapshot.
    InstallSnapshot,
    /// Send `request` to the peer at `addr`.
    Send { addr: String, request: AppendEntriesRequest },
}

impl View for AppendPlan {
    type V = AppendPlanView;

    open spec fn view(&self) -> AppendPlanView {
        match self {
            AppendPlan::NotLeader => AppendPlanView::NotLeader,
            AppendPlan::PeerMissing => AppendPlanView::PeerMissing,
            AppendPlan::InstallSnapshot => AppendPlanView::InstallSnapshot,
            AppendPlan::Send { addr, request } => AppendPlanView::Send {
                addr: addr@,
                request: request@,
            },
        }
    }
}

/// A snapshot that is due: what the state machine has to write, and where.
#[derive(Debug)]
pub struct SnapshotPlan {
    pub last_included_index: u64,
    pub last_included_term: u64,
    /// The path that the state machine writes its snapshot to.
    pub snapshot_filepath: String,
    /// The configuration in effect, to be kept in the metadata sidecar.
    pub configuration: Config,
}

/// How a received chunk of a snapshot is written to disk.
#[derive(Debug)]
pub struct ChunkWrite {
    /// The temporary file that the chunk belongs to.
    pub path: String,
    /// Whether the chunk is the first of the file, which is then created anew.
    pub create: bool,
    /// The offset in the file at which the chunk is written.
    pub offset: u64,
}

/// What became of a proposal.
#[derive(Debug)]
pub enum ProposeStep {
    /// Nothing was appended; the answer for the client is enclosed.
    Refused(ProposeResponse),
    /// The leader appended the payload at `index` in term `term`. The answer is due
    /// after the round of replication, from `Consensus::propose_response`.
    Appended { index: u64, term: u64 },
}

/// How far the stream that carries a snapshot to a peer has come.
#[derive(Debug, PartialEq, Eq, Clone, Copy, Structural)]
pub struct SnapshotTransfer {
    /// The peer that receives the snapshot.
    pub peer_id: u64,
    /// Size of the metadata sidecar in bytes.
    pub meta_size: u64,
    /// Size of the state-machine snapshot in bytes.
    pub snap_size: u64,
    /// Offset in the stream of the chunk that is sent next.
    pub offset: u64,
}

impl SnapshotTransfer {
    /// The stream is no longer than a `u64` can count, and the offset lies within it.
    pub open spec fn wf(self) -> bool {
        self.offset <= self.meta_size + self.snap_size <= u64::MAX
    }

    /// The chunk that is sent next, or `None` at the end of the stream.
    pub open spec fn current(self) -> Option<SnapshotChunk> {
        chunk_at(self.meta_size, self.snap_size, self.offset)
    }

    /// The start of a stream for `peer_id`; `None` where the two files together
    /// are longer than a `u64` can count.
    pub fn new(peer_id: u64, meta_size: u64, snap_size: u64) -> (r: Option<SnapshotTransfer>)
        ensures
            r is Some <==> meta_size + snap_size <= u64::MAX,
            r matches Some(t) ==> t == (SnapshotTransfer { peer_id, meta_size, snap_size, offset: 0 })
                && t.wf(),
    {
        if snap_size > u64::MAX - meta_size {
            None
        } else {
            Some(SnapshotTransfer { peer_id, meta_size, snap_size, offset: 0 })
        }
    }

    /// The chunk that is sent next, or `None` at the end of the stream.
    pub fn chunk(&self) -> (r: Option<SnapshotChunk>)
        ensures
            r == self.current(),
    {
        Consensus::snapshot_chunk(self.meta_size, self.snap_size, self.offset)
    }
}

/// The suffix of the temporary file that a chunk tagged `data_type` belongs to.
pub open spec fn tmp_suffix(data_type: SnapshotDataType) -> Seq<char> {
    match data_type {
        SnapshotDataType::Metadata => ".snapshot.metadata.tmp"@,
        SnapshotDataType::Snapshot => ".snapshot.tmp"@,
    }
}

/// The test whether a server is another one than `own_id`.
pub open spec fn is_other(own_id: u64) -> spec_fn(ServerInfoView) -> bool {
    |s: ServerInfoView| s.server_id != own_id
}

/// The consensus state of one replica.
#[derive(Debug)]
pub struct Consensus {
    /// Identifier of this server.
    pub server_id: u64,
    /// Address under which this server is reached.
    pub server_addr: String,
    /// Current term and vote, with the changes not yet persisted.
    pub metadata: MetadataManager,
    /// Role of this replica.
    pub state: State,
    /// The latest configuration seen in the log, committed or not.
    pub current_config: Config,
    /// Membership of this server in `current_config`.
    pub node_config_state: ConfigState,
    /// The log.
    pub log: Log,
    /// Highest log index known to be committed.
    pub commit_index: u64,
    /// Highest log index whose entry took effect.
    pub last_applied: u64,
    /// The server taken for the leader, or `NONE_SERVER_ID`.
    pub leader_id: u64,
    /// The other servers.
    pub peer_manager: PeerManager,
    /// Metadata of the latest snapshot.
    pub snapshot: Snapshot,
    /// While a snapshot is being received: the size of its metadata sidecar, known
    /// once the first chunk of the snapshot itself has arrived.
    pub incoming_meta_size: Option<u64>,
    /// What the caller has to do, oldest first.
    pub effects: Vec<Effect>,
}

impl View for Consensus {
    type V = ConsensusView;

    open spec fn view(&self) -> ConsensusView {
        ConsensusView {
            server_id: self.server_id,
            server_addr: self.server_addr@,
            metadata: self.metadata@,
            state: self.state,
            current_config: self.current_config@,
            node_config_state: self.node_config_state,
            log: self.log@,
            commit_index: self.commit_index,
            last_applied: self.last_applied,
            leader_id: self.leader_id,
            peers: self.peer_manager@,
            snapshot: self.snapshot@,
            incoming_meta_size: self.incoming_meta_size,
            effects: self.effects.deep_view(),
        }
    }
}

impl Consensus {
    /// Well-formedness: a well-formed log, and what holds between any two events.
    pub open spec fn wf(&self) -> bool {
        self.log.wf() && self@.inv()
    }

    /// Asks the caller for `effect`.
    fn emit(&mut self, effect: Effect)
        ensures
            final(self)@ == old(self)@.emit(effect.deep_view()),
            old(self).log.wf() ==> final(self).log.wf(),
    {
        let ghost before = self.effects.deep_view();
        let ghost e = effect.deep_view();
        self.effects.push(effect);
        assert(self.effects.deep_view() =~= before.push(e));
    }

    /// Hands out what the handlers asked for, oldest first, and forgets it.
    pub fn take_effects(&mut self) -> (r: Vec<Effect>)
        ensures
            old(self).wf() ==> final(self).wf(),
            r.deep_view() == old(self)@.effects,
            final(self)@ == (ConsensusView { effects: Seq::empty(), ..old(self)@ }),
            old(self).log.wf() ==> final(self).log.wf(),
    {
        proof {
            if self.wf() {
                lemma_step(self@, Event::EffectsTaken);
            }
        }
        let mut out: Vec<Effect> = Vec::new();
        std::mem::swap(&mut out, &mut self.effects);
        assert(self.effects.deep_view() =~= Seq::empty());
        out
    }

    /// Becomes a follower on seeing the term `new_term`; adopts the term, forgets
    /// the vote and the leader where the term is higher than the current one.
    pub fn step_down(&mut self, new_term: u64)
        ensures
            old(self).wf() ==> final(self).wf(),
            final(self)@ == old(self)@.step_down(new_term),
            old(self).log.wf() ==> final(self).log.wf(),
    {
        proof {
            if self.wf() {
                lemma_step_down(self@, new_term);
            }
        }
        let current_term = self.metadata.current_term();
        if new_term < current_term {
            return ;
        }
        let was_follower = self.state == State::Follower;
        self.state = State::Follower;
        if new_term > current_term {
            self.metadata.update_current_term(new_term);
            self.leader_id = NONE_SERVER_ID;
        } else if !was_follower {
            self.leader_id = NONE_SERVER_ID;
        }
        self.metadata.sync();
        self.emit(Effect::ResetElectionTimer);
    }

    /// Makes `config` the current configuration and recomputes all membership flags.
    fn set_config(&mut self, config: Config)
        ensures
            final(self)@ == old(self)@.with_config(config@),
            old(self).log.wf() ==> final(self).log.wf(),
    {
        self.node_config_state = config.get_node_state(self.server_id);
        self.peer_manager.set_membership(&config);
        self.current_config = config;
    }

    /// Shuts this replica down: a follower without leader and peers, its timers stopped.
    pub fn shutdown(&mut self)
        ensures
            old(self).wf() ==> final(self).wf(),
            final(self)@ == old(self)@.shutdown(),
            old(self).log.wf() ==> final(self).log.wf(),
    {
        proof {
            if self.wf() {
                lemma_step(self@, Event::Shutdown);
            }
        }
        self.state = State::Follower;
        self.leader_id = NONE_SERVER_ID;
        self.peer_manager.clear();
        self.emit(Effect::StopTimers);
    }

    /// The index of the last entry, the snapshot's where the log is empty.
    pub fn last_log_index(&self) -> (r: u64)
        ensures
            r == self@.last_log_index(),
    {
        self.log.last_index(self.snapshot.last_included_index)
    }

    /// The term of the last entry, the snapshot's where the log is empty.
    pub fn last_log_term(&self) -> (r: u64)
        ensures
            r == self@.last_log_term(),
    {
        self.log.last_term(self.snapshot.last_included_term)
    }

    /// The index after the last entry, or `u64::MAX` where there is none.
    fn next_peer_index(&self) -> (r: u64)
        ensures
            r == index_after(self@.last_log_index()),
    {
        let last = self.last_log_index();
        if last < u64::MAX {
            last + 1
        } else {
            u64::MAX
        }
    }

    /// The peers that join the peer table when the joint configuration `config` is appended.
    fn joining_peers(&self, config: &Config) -> (r: Vec<Peer>)
        ensures
            r.deep_view() == self@.joining_peers(config@),
    {
        let next = self.next_peer_index();
        let ghost servers = config@.new_servers;
        let ghost test = joins(self.server_id, self.peer_manager@);
        let ghost make = joining_map(next);
        let mut out: Vec<Peer> = Vec::new();
        let mut i: usize = 0;
        proof {
            reveal(Seq::filter);
            assert(servers.take(0).len() == 0);
            assert(out.deep_view() =~= servers.take(0).filter(test).map_values(make));
        }
        while i < config.new_servers.len()
            invariant
                i <= config.new_servers.len(),
                servers == config@.new_servers,
                test == joins(self.server_id, self.peer_manager@),
                make == joining_map(next),
                out.deep_view() == servers.take(i as int).filter(test).map_values(make),
            decreases config.new_servers.len() - i,
        {
            let ghost so_far = out.deep_view();
            let ghost kept = servers.take(i as int).filter(test);
            proof {
                reveal(Seq::filter);
                assert(servers.take(i + 1).drop_last() =~= servers.take(i as int));
                assert(servers.take(i + 1).last() == servers[i as int]);
            }
            let id = config.new_servers[i].server_id;
            if id != self.server_id && !self.peer_manager.contains(id) {
                let mut peer = Peer::new(id, config.new_servers[i].server_addr.clone());
                peer.next_index = next;
                assert(servers[i as int] == config.new_servers[i as int]@);
                assert(peer@ == peer_for(servers[i as int], next));
                out.push(peer);
                assert(out.deep_view() =~= so_far.push(peer_for(servers[i as int], next)));
                assert(kept.push(servers[i as int]).map_values(make) =~= kept.map_values(make).push(
                    peer_for(servers[i as int], next),
                ));
            }
            i += 1;
        }
        assert(servers.take(i as int) =~= servers);
        out
    }

    /// Lets the configuration `config` take effect as appended (pending) or as committed.
    fn apply_configuration_to_internal_state(&mut self, config: Config, committed: bool)
        ensures
            final(self)@ == old(self)@.apply_configuration(config@, committed),
            old(self).log.wf() ==> final(self).log.wf(),
    {
        if committed {
            let stable = config.is_stable();
            let members = clone_servers(&config.new_servers);
            self.set_config(config);
            if stable {
                self.peer_manager.retain_servers(&members);
                if !self.node_config_state.newing {
                    self.shutdown();
                }
            }
        } else {
            if config.is_joint() {
                let joining = self.joining_peers(&config);
                self.peer_manager.extend(joining);
            }
            self.set_config(config);
        }
    }

    /// Puts an entry of kind `entry_type` with payload `data` at the end of the log
    /// of this leader.
    fn append_entry(&mut self, entry_type: EntryType, data: Vec<u8>) -> (r: Result<(), ReplicateError>)
        requires
            old(self).log.wf(),
        ensures
            final(self).log.wf(),
            final(self)@ == old(self)@.append_entry(entry_type, data@).0,
            r is Ok == old(self)@.append_entry(entry_type, data@).1,
            r == Err::<(), ReplicateError>(ReplicateError::NotLeader) <==> old(self)@.state
                != State::Leader,
    {
        if self.state != State::Leader {
            return Err(ReplicateError::NotLeader);
        }
        if self.log.next_index() >= u64::MAX {
            return Err(ReplicateError::LogFull);
        }
        let ghost before = self@;
        let current_term = self.metadata.current_term();
        let ghost payload = data@;
        let mut items: Vec<LogEntryData> = Vec::new();
        items.push((entry_type, data));
        assert(items[0].1.deep_view() =~= payload);
        assert(items.deep_view() =~= seq![(entry_type, payload)]);
        self.log.append_data(current_term, items);
        proof {
            let added = entries_of_data(before.log.next_index(), current_term, seq![(entry_type, payload)]);
            assert(before.log.entries + added =~= before.log.entries.push(added[0]));
        }
        self.emit(Effect::PersistLog);
        Ok(())
    }

    /// Appends an entry of kind `entry_type` with payload `data` to the log of this
    /// leader and asks for a round of replication. A payload of kind
    /// `Configuration` that encodes a configuration takes effect as pending at once.
    pub fn replicate(&mut self, entry_type: EntryType, data: Vec<u8>) -> (r: Result<
        (),
        ReplicateError,
    >)
        requires
            old(self).log.wf(),
        ensures
            old(self).wf() ==> final(self).wf(),
            final(self).log.wf(),
            final(self)@ == old(self)@.replicate(entry_type, data@).0,
            r is Ok == old(self)@.replicate(entry_type, data@).1,
            r is Err ==> final(self)@ == old(self)@,
            r == Err::<(), ReplicateError>(ReplicateError::NotLeader) <==> old(self)@.state
                != State::Leader,
    {
        proof {
            if self.wf() {
                lemma_step(self@, Event::Replicate { kind: entry_type, data: data@ });
            }
        }
        let pending = if entry_type == EntryType::Configuration {
            Config::from_data(data.as_slice())
        } else {
            None
        };
        match self.append_entry(entry_type, data) {
            Ok(()) => {},
            Err(e) => {
                return Err(e);
            },
        }
        match pending {
            Some(config) => {
                self.apply_configuration_to_internal_state(config, false);
            },
            None => {},
        }
        self.emit(Effect::Replicate);
        Ok(())
    }

    /// Appends the next configuration of a membership change to the log of this
    /// leader: the joint configuration towards `target_new_servers`, or, without a
    /// target, the stable configuration that ends the change. Returns whether it did.
    fn append_and_replicate_config_change(&mut self, target_new_servers: Option<Vec<ServerInfo>>) -> (done:
        bool)
        requires
            old(self).log.wf(),
        ensures
            final(self).log.wf(),
            final(self)@ == old(self)@.config_change(target_new_servers.deep_view()).0,
            done == old(self)@.config_change(target_new_servers.deep_view()).1,
    {
        if self.state != State::Leader {
            return false;
        }
        let config = match target_new_servers {
            Some(servers) => {
                if servers.len() == 0 || !self.current_config.is_stable() {
                    return false;
                }
                self.current_config.start_transition(servers)
            },
            None => {
                if !self.current_config.is_joint() {
                    return false;
                }
                self.current_config.finalize_transition()
            },
        };
        let data = config.to_data();
        match self.append_entry(EntryType::Configuration, data) {
            Ok(()) => {
                self.apply_configuration_to_internal_state(config, false);
                self.emit(Effect::Replicate);
                true
            },
            Err(_) => false,
        }
    }

    /// Appends, on a leader whose joint configuration was committed, the stable
    /// configuration that ends the membership change.
    fn append_and_replicate_final_config(&mut self)
        requires
            old(self).log.wf(),
        ensures
            final(self).log.wf(),
            final(self)@ == old(self)@.append_final_config(),
    {
        self.append_and_replicate_config_change(None);
    }

    /// Lets the committed entry `e` take effect.
    fn apply_entry(&mut self, e: LogEntry)
        requires
            old(self).log.wf(),
        ensures
            final(self).log.wf(),
            final(self)@ == old(self)@.apply_entry(e@),
    {
        match EntryType::kind_of(e.entry_type) {
            EntryType::Data => {
                self.emit(Effect::Apply(e.data));
            },
            EntryType::Noop => {},
            EntryType::Configuration => {
                match Config::from_data(e.data.as_slice()) {
                    Some(config) => {
                        let joint = config.is_joint();
                        self.apply_configuration_to_internal_state(config, true);
                        if joint {
                            self.append_and_replicate_final_config();
                        }
                    },
                    None => {},
                }
            },
        }
    }

    /// Raises the commit index to `n` and lets every entry after the last applied
    /// one up to `n` take effect, once and in order.
    fn advance_commit(&mut self, n: u64)
        requires
            old(self).log.wf(),
        ensures
            final(self).log.wf(),
            final(self)@ == old(self)@.advance_commit(n),
    {
        if n <= self.commit_index {
            return ;
        }
        let ghost start = self@;
        let ghost target = start.apply_range(start.last_applied, n);
        let mut i: u64 = self.last_applied;
        let mut stopped = false;
        while i < n && !stopped
            invariant
                self.log.wf(),
                self@.commit_index == start.commit_index,
                target == if stopped {
                    self@
                } else {
                    self@.apply_range(i, n)
                },
            decreases n - i, if stopped { 0int } else { 1int },
        {
            let index: u64 = i + 1;
            let found = match self.log.entry(index) {
                Some(e) => Some(e.clone()),
                None => None,
            };
            match found {
                Some(e) => {
                    self.apply_entry(e);
                    self.last_applied = index;
                    i = index;
                },
                None => {
                    stopped = true;
                },
            }
        }
        self.commit_index = n;
    }

    /// Whether this leader may commit up to `n`.
    fn may_commit(&self, n: u64) -> (b: bool)
        requires
            self.log.wf(),
        ensures
            b == self@.may_commit(n),
    {
        if n <= self.snapshot.last_included_index {
            return true;
        }
        match self.log.entry(n) {
            Some(e) => e.term == self.metadata.current_term(),
            None => false,
        }
    }

    /// Lets this leader reconsider its commit index: it rises to the index that a
    /// quorum of every non-empty server set has replicated, where the entry there
    /// is of the current term, and the entries up to it take effect.
    pub fn leader_advance_commit_index(&mut self)
        requires
            old(self).log.wf(),
        ensures
            old(self).wf() ==> final(self).wf(),
            final(self).log.wf(),
            final(self)@ == old(self)@.leader_advance_commit_index(),
    {
        proof {
            if self.wf() {
                lemma_step(self@, Event::RoundEnded);
            }
        }
        if self.state != State::Leader {
            return ;
        }
        let n = self.peer_manager.quoram_match_index(&self.node_config_state, self.last_log_index());
        if n > self.commit_index && self.may_commit(n) {
            self.advance_commit(n);
        }
    }

    /// Lets this follower adopt the commit index `leader_commit_index` of its leader,
    /// as far as its own log reaches.
    pub fn follower_advance_commit_index(&mut self, leader_commit_index: u64)
        requires
            old(self).log.wf(),
        ensures
            old(self).wf() ==> final(self).wf(),
            final(self).log.wf(),
            final(self)@ == old(self)@.advance_commit(
                old(self)@.follower_commit_target(leader_commit_index),
            ),
    {
        proof {
            if self.wf() {
                lemma_advance_commit(self@, self@.follower_commit_target(leader_commit_index));
            }
        }
        let last = self.last_log_index();
        let n = if leader_commit_index <= last {
            leader_commit_index
        } else {
            last
        };
        self.advance_commit(n);
    }

    /// Whether `entries` carry consecutive indices that begin after `prev_log_index`.
    fn entries_follow(entries: &Vec<LogEntry>, prev_log_index: u64) -> (b: bool)
        ensures
            b == consecutive_from(entries.deep_view(), prev_log_index + 1),
    {
        let mut i: usize = 0;
        while i < entries.len()
            invariant
                i <= entries.len(),
                forall|j: int|
                    0 <= j < i ==> (#[trigger] entries.deep_view()[j]).index == prev_log_index + 1
                        + j,
            decreases entries.len() - i,
        {
            let index = entries[i].index;
            if index <= prev_log_index || index - prev_log_index - 1 != i as u64 {
                assert(entries.deep_view()[i as int].index != prev_log_index + 1 + i);
                return false;
            }
            i += 1;
        }
        true
    }

    /// Whether the log agrees with the entry that precedes the entries of `request`.
    fn prev_matches(&self, request: &AppendEntriesRequest) -> (b: bool)
        requires
            self.log.wf(),
        ensures
            b == self@.prev_matches(request@),
    {
        if request.prev_log_index == 0 {
            true
        } else if request.prev_log_index == self.snapshot.last_included_index {
            request.prev_log_term == self.snapshot.last_included_term
        } else if request.prev_log_index < self.log.start_index() {
            true
        } else {
            match self.log.entry(request.prev_log_index) {
                Some(e) => e.term == request.prev_log_term,
                None => false,
            }
        }
    }

    /// The position of the first entry of `entries` that is not yet in the log.
    fn first_new_entry(&self, entries: &Vec<LogEntry>) -> (k: usize)
        requires
            self.log.wf(),
        ensures
            k == first_new(self@.log, entries.deep_view(), 0),
            k <= entries.len(),
    {
        let start = self.log.start_index();
        let next = self.log.next_index();
        let mut k: usize = 0;
        while k < entries.len()
            invariant
                k <= entries.len(),
                self.log.wf(),
                start == self@.log.start_index,
                next == self@.log.next_index(),
                first_new(self@.log, entries.deep_view(), 0) == first_new(
                    self@.log,
                    entries.deep_view(),
                    k as int,
                ),
            decreases entries.len() - k,
        {
            let index = entries[k].index;
            assert(entries.deep_view()[k as int] == entries[k as int]@);
            if index >= start {
                if index >= next {
                    return k;
                }
                match self.log.entry(index) {
                    Some(e) => {
                        if e.term != entries[k].term {
                            return k;
                        }
                    },
                    None => {},
                }
            }
            k += 1;
        }
        k
    }

    /// Lets the configurations among `entries` take effect as pending, in order.
    fn apply_pending_configs(&mut self, entries: &Vec<LogEntry>)
        ensures
            final(self)@ == old(self)@.apply_pending_configs(entries.deep_view(), 0),
            old(self).log.wf() ==> final(self).log.wf(),
    {
        let ghost target = self@.apply_pending_configs(entries.deep_view(), 0);
        let mut k: usize = 0;
        while k < entries.len()
            invariant
                k <= entries.len(),
                old(self).log.wf() ==> self.log.wf(),
                target == self@.apply_pending_configs(entries.deep_view(), k as int),
            decreases entries.len() - k,
        {
            assert(entries.deep_view()[k as int] == entries[k as int]@);
            if entries[k].entry_type == ENTRY_TYPE_CONFIGURATION {
                match Config::from_data(entries[k].data.as_slice()) {
                    Some(config) => {
                        self.apply_configuration_to_internal_state(config, false);
                    },
                    None => {},
                }
            }
            k += 1;
        }
    }

    /// Takes in the entries of a request: those not yet in the log replace whatever
    /// the log holds from the first of them on. Returns `false`, and changes
    /// nothing, where they would leave a gap, rewrite a committed entry, or not fit.
    fn accept_entries(&mut self, entries: &Vec<LogEntry>, prev_log_index: u64) -> (ok: bool)
        requires
            old(self).log.wf(),
            consecutive_from(entries.deep_view(), prev_log_index + 1),
        ensures
            final(self).log.wf(),
            match old(self)@.accept_entries(entries.deep_view()) {
                Some(s) => ok && final(self)@ == s,
                None => !ok && final(self)@ == old(self)@,
            },
    {
        let k = self.first_new_entry(entries);
        if k >= entries.len() {
            return true;
        }
        let ghost all = entries.deep_view();
        let ghost tail_view = all.skip(k as int);
        let first_index = entries[k].index;
        assert(all[k as int] == entries[k as int]@);
        assert(tail_view[0] == all[k as int]);
        let next = self.log.next_index();
        let tail_len: usize = entries.len() - k;
        if first_index > next {
            return false;
        }
        if first_index < next && first_index <= self.commit_index {
            return false;
        }
        if tail_len as u64 > u64::MAX - first_index {
            return false;
        }
        proof {
            lemma_first_new_is_new(self@.log, all, 0);
        }
        let mut tail: Vec<LogEntry> = Vec::new();
        let mut i: usize = k;
        while i < entries.len()
            invariant
                k <= i <= entries.len(),
                tail.len() == i - k,
                forall|j: int| 0 <= j < i - k ==> tail[j]@ == entries[k + j]@,
            decreases entries.len() - i,
        {
            tail.push(entries[i].clone());
            i += 1;
        }
        assert(tail.deep_view() =~= tail_view);
        self.log.truncate_suffix(first_index - 1);
        assert(self.log@.next_index() == first_index);
        assert(consecutive_from(tail_view, first_index as int)) by {
            assert forall|j: int| 0 <= j < tail_view.len() implies (#[trigger] tail_view[j]).index
                == first_index + j by {
                assert(tail_view[j] == all[k + j]);
            }
        }
        self.log.append_entries(clone_entries(&tail));
        self.emit(Effect::PersistLog);
        self.apply_pending_configs(&tail);
        true
    }

    /// Follows the sender of a request whose term is not stale.
    fn follow(&mut self, term: u64, leader_id: u64)
        ensures
            final(self)@ == old(self)@.follow(term, leader_id),
            old(self).log.wf() ==> final(self).log.wf(),
    {
        if term > self.metadata.current_term() || self.state != State::Follower {
            self.step_down(term);
        }
        self.emit(Effect::ResetElectionTimer);
        self.leader_id = leader_id;
    }

    /// Answers an `AppendEntries` request.
    ///
    /// A request of a stale term, or of term 0, is refused without any change.
    /// Otherwise this replica follows the sender. The entries are then refused
    /// where their indices are not consecutive after `prev_log_index`, where the
    /// log disagrees at `prev_log_index`, or where they cannot take their place in
    /// the log; else they are taken in and the commit index follows the leader's.
    pub fn handle_append_entries_rpc(&mut self, request: &AppendEntriesRequest) -> (response:
        AppendEntriesResponse)
        requires
            old(self).log.wf(),
        ensures
            old(self).wf() ==> final(self).wf(),
            final(self).log.wf(),
            final(self)@ == old(self)@.handle_append_entries(request@).0,
            response == old(self)@.handle_append_entries(request@).1,
    {
        proof {
            if self.wf() {
                lemma_step(self@, Event::AppendEntries(request@));
            }
        }
        let current_term = self.metadata.current_term();
        if request.term == 0 || request.term < current_term {
            return AppendEntriesResponse { term: current_term, success: false };
        }
        self.follow(request.term, request.leader_id);
        if !Self::entries_follow(&request.entries, request.prev_log_index) || !self.prev_matches(
            request,
        ) {
            return AppendEntriesResponse { term: self.metadata.current_term(), success: false };
        }
        if !self.accept_entries(&request.entries, request.prev_log_index) {
            return AppendEntriesResponse { term: self.metadata.current_term(), success: false };
        }
        self.follower_advance_commit_index(request.leader_commit);
        AppendEntriesResponse { term: self.metadata.current_term(), success: true }
    }

    /// Answers a `RequestVote` request.
    ///
    /// A request of a stale term, or of term 0, is refused without any change. A
    /// higher term is adopted first. The vote is then granted where the candidate
    /// is a server of the current configuration (or none is known), its log is at
    /// least as up to date as this one, and this replica has not voted for another
    /// server in the term.
    pub fn handle_request_vote_rpc(&mut self, request: &RequestVoteRequest) -> (response:
        RequestVoteResponse)
        ensures
            old(self).wf() ==> final(self).wf(),
            final(self)@ == old(self)@.handle_request_vote(*request).0,
            response == old(self)@.handle_request_vote(*request).1,
            old(self).log.wf() ==> final(self).log.wf(),
    {
        proof {
            if self.wf() {
                lemma_step(self@, Event::RequestVote(*request));
            }
        }
        let current_term = self.metadata.current_term();
        if request.term == 0 || request.term < current_term {
            return RequestVoteResponse { term: current_term, vote_granted: false };
        }
        if request.term > current_term {
            self.step_down(request.term);
        }
        let term = self.metadata.current_term();
        let voted_for = self.metadata.voted_for();
        let own_term = self.last_log_term();
        let log_ok = request.last_log_term > own_term || (request.last_log_term == own_term
            && request.last_log_index >= self.last_log_index());
        let may_vote = voted_for == NONE_SERVER_ID || voted_for == request.candidate_id;
        if request.candidate_id != NONE_SERVER_ID && log_ok && may_vote && (
        self.current_config.get_node_state(request.candidate_id).newing
            || self.current_config.get_node_state(request.candidate_id).olding
            || self.current_config.is_empty()) {
            self.metadata.update_voted_for(request.candidate_id);
            self.metadata.sync();
            self.state = State::Follower;
            self.leader_id = NONE_SERVER_ID;
            self.emit(Effect::ResetElectionTimer);
            RequestVoteResponse { term, vote_granted: true }
        } else {
            RequestVoteResponse { term, vote_granted: false }
        }
    }

    /// Reacts to an election timeout: unless this replica is the leader, it becomes
    /// a candidate in the next term, votes for itself and withdraws the votes of
    /// all peers. Returns the request to send to every peer, where an election starts.
    pub fn handle_election_timeout(&mut self) -> (request: Option<RequestVoteRequest>)
        ensures
            old(self).wf() ==> final(self).wf(),
            final(self)@ == old(self)@.handle_election_timeout(),
            request == if old(self)@.starts_election() {
                Some(final(self)@.vote_request())
            } else {
                None
            },
            old(self).log.wf() ==> final(self).log.wf(),
    {
        proof {
            if self.wf() {
                lemma_step(self@, Event::ElectionTimeout);
            }
        }
        let current_term = self.metadata.current_term();
        if self.state == State::Leader || current_term == u64::MAX {
            self.emit(Effect::ResetElectionTimer);
            return None;
        }
        self.state = State::Candidate;
        self.metadata.update_current_term(current_term + 1);
        self.metadata.update_voted_for(self.server_id);
        self.metadata.sync();
        self.leader_id = NONE_SERVER_ID;
        self.peer_manager.reset_vote();
        let request = RequestVoteRequest {
            term: current_term + 1,
            candidate_id: self.server_id,
            last_log_index: self.last_log_index(),
            last_log_term: self.last_log_term(),
        };
        self.emit(Effect::ResetElectionTimer);
        Some(request)
    }

    /// Takes in the answer of peer `peer_id` to a vote request; `None` stands for a
    /// failed call. A higher term makes this replica step down; a vote granted in
    /// the current term is recorded. Nothing happens unless this replica is a candidate.
    pub fn handle_request_vote_response(&mut self, peer_id: u64, response: Option<RequestVoteResponse>)
        ensures
            old(self).wf() ==> final(self).wf(),
            final(self)@ == old(self)@.handle_request_vote_response(peer_id, response),
            old(self).log.wf() ==> final(self).log.wf(),
    {
        proof {
            if self.wf() {
                lemma_step(self@, Event::VoteResponse { peer_id, vote: response });
            }
        }
        if self.state != State::Candidate {
            return ;
        }
        match response {
            None => {},
            Some(r) => {
                let current_term = self.metadata.current_term();
                if r.term > current_term {
                    self.step_down(r.term);
                } else if r.vote_granted && r.term == current_term {
                    match self.peer_manager.position(peer_id) {
                        Some(i) => {
                            let mut peer = self.peer_manager.peers()[i].clone();
                            peer.vote_granted = true;
                            self.peer_manager.set_peer(i, peer);
                        },
                        None => {},
                    }
                }
            },
        }
    }

    /// Makes this candidate the leader: every peer is reset, an entry of kind
    /// `Noop` of the new term is appended.
    fn become_leader(&mut self)
        requires
            old(self).log.wf(),
        ensures
            final(self).log.wf(),
            final(self)@ == old(self)@.become_leader(),
    {
        if self.state != State::Candidate {
            return ;
        }
        self.state = State::Leader;
        self.leader_id = self.server_id;
        let next = self.next_peer_index();
        self.peer_manager.reset_for_leader(next);
        let mut data: Vec<u8> = Vec::new();
        data.push(78);
        data.push(111);
        data.push(110);
        data.push(101);
        assert(data@ =~= none_data());
        let _ = self.replicate(EntryType::Noop, data);
        self.emit(Effect::ResetHeartbeatTimer);
    }

    /// Counts the votes of this candidate; it becomes the leader where it holds a
    /// strict majority in every non-empty server set.
    pub fn conclude_election(&mut self)
        requires
            old(self).log.wf(),
        ensures
            old(self).wf() ==> final(self).wf(),
            final(self).log.wf(),
            final(self)@ == old(self)@.conclude_election(),
    {
        proof {
            if self.wf() {
                lemma_step(self@, Event::ElectionConcluded);
            }
        }
        if self.state == State::Candidate && self.peer_manager.quorum_vote_granted(
            &self.node_config_state,
        ) {
            self.become_leader();
        }
    }

    /// What this leader does for peer `peer_id` in a round of replication, or of
    /// heartbeats where `heartbeat`: the request to send, or the finding that the
    /// peer needs the snapshot instead.
    pub fn append_one_entry_to_peer(&self, peer_id: u64, heartbeat: bool) -> (plan: AppendPlan)
        requires
            self.log.wf(),
        ensures
            plan@ == self@.append_plan(peer_id, heartbeat),
    {
        if self.state != State::Leader {
            return AppendPlan::NotLeader;
        }
        let i = match self.peer_manager.position(peer_id) {
            Some(i) => i,
            None => {
                return AppendPlan::PeerMissing;
            },
        };
        let peer = &self.peer_manager.peers()[i];
        assert(peer@ == self@.peers[i as int]);
        if !heartbeat && peer.next_index < self.log.start_index() {
            return AppendPlan::InstallSnapshot;
        }
        let entries = if heartbeat {
            let none: Vec<LogEntry> = Vec::new();
            assert(none.deep_view() =~= Seq::<LogEntryView>::empty());
            none
        } else {
            self.log.pack_entries(peer.next_index)
        };
        let prev: u64 = if peer.next_index > 0 {
            peer.next_index - 1
        } else {
            0
        };
        let prev_term = self.log.prev_log_term(
            prev,
            self.snapshot.last_included_index,
            self.snapshot.last_included_term,
        );
        AppendPlan::Send {
            addr: peer.addr.clone(),
            request: AppendEntriesRequest {
                term: self.metadata.current_term(),
                leader_id: self.server_id,
                prev_log_index: prev,
                prev_log_term: prev_term,
                entries,
                leader_commit: self.commit_index,
            },
        }
    }

    /// Takes in the answer of peer `peer_id` to an `AppendEntries` request that
    /// carried `sent` entries after `prev_log_index`; `None` stands for a failed
    /// call. A higher term makes this replica step down; success moves the peer's
    /// `match_index` to the last entry sent and `next_index` after it; a refusal
    /// moves `next_index` one back, not below 1.
    pub fn handle_append_entries_response(
        &mut self,
        peer_id: u64,
        prev_log_index: u64,
        sent: u64,
        response: Option<AppendEntriesResponse>,
    )
        ensures
            old(self).wf() ==> final(self).wf(),
            final(self)@ == old(self)@.handle_append_entries_response(
                peer_id,
                prev_log_index,
                sent,
                response,
            ),
            old(self).log.wf() ==> final(self).log.wf(),
    {
        proof {
            if self.wf() {
                lemma_step(self@, Event::AppendResponse { peer_id, prev_log_index, sent, response });
            }
        }
        if self.state != State::Leader {
            return ;
        }
        match response {
            None => {},
            Some(r) => {
                if r.term > self.metadata.current_term() {
                    self.step_down(r.term);
                    return ;
                }
                match self.peer_manager.position(peer_id) {
                    Some(i) => {
                        let mut peer = self.peer_manager.peers()[i].clone();
                        if r.success {
                            if sent < u64::MAX - prev_log_index {
                                peer.match_index = prev_log_index + sent;
                                peer.next_index = prev_log_index + sent + 1;
                                self.peer_manager.set_peer(i, peer);
                            }
                        } else if peer.next_index > 1 {
                            peer.next_index = peer.next_index - 1;
                            self.peer_manager.set_peer(i, peer);
                        }
                    },
                    None => {},
                }
            },
        }
    }

    /// Takes in the answer of peer `peer_id` to a chunk of a snapshot, the last one
    /// where `done`; `None` stands for a failed call. A higher term makes this
    /// replica step down; after the last chunk the peer continues after the snapshot.
    pub fn handle_install_snapshot_response(
        &mut self,
        peer_id: u64,
        done: bool,
        response: Option<InstallSnapshotResponse>,
    )
        ensures
            old(self).wf() ==> final(self).wf(),
            final(self)@ == old(self)@.handle_install_snapshot_response(
                peer_id,
                done,
                match response {
                    Some(r) => Some(r.term),
                    None => None,
                },
            ),
            old(self).log.wf() ==> final(self).log.wf(),
    {
        proof {
            if self.wf() {
                lemma_step(
                    self@,
                    Event::SnapshotResponse {
                        peer_id,
                        done,
                        response_term: match response {
                            Some(r) => Some(r.term),
                            None => None,
                        },
                    },
                );
            }
        }
        if self.state != State::Leader {
            return ;
        }
        match response {
            None => {},
            Some(r) => {
                if r.term > self.metadata.current_term() {
                    self.step_down(r.term);
                    return ;
                }
                if done {
                    match self.peer_manager.position(peer_id) {
                        Some(i) => {
                            let mut peer = self.peer_manager.peers()[i].clone();
                            let last = self.snapshot.last_included_index;
                            peer.next_index = if last < u64::MAX {
                                last + 1
                            } else {
                                u64::MAX
                            };
                            peer.match_index = last;
                            self.peer_manager.set_peer(i, peer);
                        },
                        None => {},
                    }
                }
            },
        }
    }

    /// Takes in the answer of the peer to the chunk that `transfer` stands at, and
    /// moves `transfer` past that chunk. Returns the chunk to send next: none at
    /// the end of the stream, after a failed call, and once this replica is no
    /// longer the leader.
    pub fn snapshot_chunk_answered(
        &mut self,
        transfer: &mut SnapshotTransfer,
        response: Option<InstallSnapshotResponse>,
    ) -> (next: Option<SnapshotChunk>)
        requires
            old(transfer).wf(),
        ensures
            old(self).wf() ==> final(self).wf(),
            final(transfer).wf(),
            final(transfer).peer_id == old(transfer).peer_id,
            final(transfer).meta_size == old(transfer).meta_size,
            final(transfer).snap_size == old(transfer).snap_size,
            match old(transfer).current() {
                Some(chunk) => {
                    &&& final(self)@ == old(self)@.handle_install_snapshot_response(
                        old(transfer).peer_id,
                        chunk.done,
                        match response {
                            Some(r) => Some(r.term),
                            None => None,
                        },
                    )
                    &&& final(transfer).offset == old(transfer).offset + chunk.len
                    &&& next == if response is Some && final(self)@.state == State::Leader {
                        final(transfer).current()
                    } else {
                        None
                    }
                },
                None => final(self)@ == old(self)@ && *final(transfer) == *old(transfer)
                    && next is None,
            },
            old(self).log.wf() ==> final(self).log.wf(),
    {
        proof {
            if self.wf() {
                match transfer.current() {
                    Some(chunk) => {
                        lemma_step(
                            self@,
                            Event::SnapshotResponse {
                                peer_id: transfer.peer_id,
                                done: chunk.done,
                                response_term: match response {
                                    Some(r) => Some(r.term),
                                    None => None,
                                },
                            },
                        );
                    },
                    None => {},
                }
            }
        }
        let chunk = match transfer.chunk() {
            Some(chunk) => chunk,
            None => {
                return None;
            },
        };
        let answered = response.is_some();
        self.handle_install_snapshot_response(transfer.peer_id, chunk.done, response);
        transfer.offset = transfer.offset + chunk.len;
        if answered && self.state == State::Leader {
            transfer.chunk()
        } else {
            None
        }
    }

    /// Reacts to a heartbeat timeout. Returns whether this replica is the leader
    /// and so has to send a heartbeat to every peer.
    pub fn handle_heartbeat_timeout(&mut self) -> (send: bool)
        ensures
            old(self).wf() ==> final(self).wf(),
            final(self)@ == old(self)@.emit(EffectView::ResetHeartbeatTimer),
            send == (old(self)@.state == State::Leader),
            old(self).log.wf() ==> final(self).log.wf(),
    {
        proof {
            if self.wf() {
                lemma_step(self@, Event::HeartbeatTimeout);
            }
        }
        self.emit(Effect::ResetHeartbeatTimer);
        self.state == State::Leader
    }

    /// The server that a replica that is not the leader points clients to.
    fn leader_hint(&self) -> (r: Option<ServerInfo>)
        ensures
            r.deep_view() == self@.leader_hint(),
    {
        if self.leader_id == NONE_SERVER_ID {
            return None;
        }
        match self.peer_manager.position(self.leader_id) {
            Some(i) => {
                let peer = &self.peer_manager.peers()[i];
                assert(peer@ == self@.peers[i as int]);
                Some(ServerInfo { server_id: peer.id, server_addr: peer.addr.clone() })
            },
            None => {
                if self.leader_id == self.server_id {
                    Some(
                        ServerInfo { server_id: self.server_id, server_addr: self.server_addr.clone() },
                    )
                } else {
                    None
                }
            },
        }
    }

    /// Takes in a proposal: a leader appends the payload and asks for a round of
    /// replication, and the answer is due after the round, from `propose_response`.
    /// Any other replica refuses and names the leader, if it knows one.
    pub fn handle_propose_rpc(&mut self, request: &ProposeRequest) -> (step: ProposeStep)
        requires
            old(self).log.wf(),
        ensures
            old(self).wf() ==> final(self).wf(),
            final(self).log.wf(),
            final(self)@ == old(self)@.handle_propose(request.data@).0,
            match step {
                ProposeStep::Appended { index, term } => old(self)@.handle_propose(request.data@).1
                    == Some((index, term)),
                ProposeStep::Refused(response) => {
                    &&& old(self)@.handle_propose(request.data@).1 is None
                    &&& !response.success
                    &&& response.index == match old(self)@.handle_propose(request.data@).2 {
                        Some(s) => Some(s.server_id),
                        None => None,
                    }
                    &&& response.leader_addr.deep_view() == match old(self)@.handle_propose(
                        request.data@,
                    ).2 {
                        Some(s) => Some(s.server_addr),
                        None => None,
                    }
                },
            },
    {
        proof {
            if self.wf() {
                lemma_step(self@, Event::Propose(request.data@));
            }
        }
        if self.state != State::Leader {
            return ProposeStep::Refused(
                match self.leader_hint() {
                    Some(leader) => ProposeResponse {
                        success: false,
                        index: Some(leader.server_id),
                        leader_addr: Some(leader.server_addr),
                    },
                    None => ProposeResponse { success: false, index: None, leader_addr: None },
                },
            );
        }
        let index = self.log.next_index();
        let term = self.metadata.current_term();
        let data = request.data.clone();
        assert(data@ =~= request.data@);
        match self.replicate(EntryType::Data, data) {
            Ok(()) => ProposeStep::Appended { index, term },
            Err(_) => ProposeStep::Refused(
                ProposeResponse {
                    success: false,
                    index: Some(self.server_id),
                    leader_addr: Some(self.server_addr.clone()),
                },
            ),
        }
    }

    /// The answer to a proposal whose payload was appended at `index` in term
    /// `term`, to be given after the round of replication: success exactly where
    /// the commit index has reached the entry and the log still holds an entry of
    /// that term there.
    pub fn propose_response(&self, index: u64, term: u64) -> (response: ProposeResponse)
        requires
            self.log.wf(),
        ensures
            response.success == self@.proposal_committed(index, term),
            response.index == Some(self@.server_id),
            response.leader_addr.deep_view() == Some(self@.server_addr),
    {
        let held = index >= self.log.start_index() && index < self.log.next_index();
        let committed = index <= self.commit_index && held && match self.log.entry(index) {
            Some(e) => e.term == term,
            None => false,
        };
        ProposeResponse {
            success: committed,
            index: Some(self.server_id),
            leader_addr: Some(self.server_addr.clone()),
        }
    }

    /// Names the leader: this server where it is the leader, else the server it
    /// takes for the leader, if any.
    pub fn handle_get_leader_rpc(&mut self, _request: &GetLeaderRequest) -> (response: GetLeaderResponse)
        ensures
            old(self).wf() ==> final(self).wf(),
            final(self)@ == old(self)@,
            response.leader.deep_view() == old(self)@.known_leader(),
            response.redirect_to is None,
            old(self).log.wf() ==> final(self).log.wf(),
    {
        if self.state == State::Leader {
            return GetLeaderResponse {
                leader: Some(
                    ServerInfo { server_id: self.server_id, server_addr: self.server_addr.clone() },
                ),
                redirect_to: None,
            };
        }
        GetLeaderResponse { leader: self.leader_hint(), redirect_to: None }
    }

    /// Lists the servers of the current configuration, one for every id, the new
    /// server set taking precedence; the order is not specified.
    pub fn handle_get_configuration_rpc(&mut self, _request: &GetConfigurationRequest) -> (response:
        GetConfigurationResponse)
        ensures
            old(self).wf() ==> final(self).wf(),
            final(self)@ == old(self)@,
            forall|i: int|
                0 <= i < response.servers.len() ==> is_last_with_id(
                    old(self)@.current_config.joined(),
                    #[trigger] response.servers.deep_view()[i],
                ),
            forall|i: int, j: int|
                0 <= i < j < response.servers.len() ==> (
                #[trigger] response.servers.deep_view()[i]).server_id != (
                #[trigger] response.servers.deep_view()[j]).server_id,
            forall|id: u64|
                has_server(response.servers.deep_view(), id) <==> old(self)@.current_config.has_id(id),
            old(self).log.wf() ==> final(self).log.wf(),
    {
        GetConfigurationResponse { servers: self.current_config.all_servers_in_config() }
    }

    /// Whether the most recent configuration in the log is a joint one.
    fn log_config_is_joint(&self) -> (b: bool)
        ensures
            b == self@.log_config_is_joint(),
    {
        match self.log.last_configuration() {
            Some(config) => config.is_joint(),
            None => false,
        }
    }

    /// Answers a request to change the membership to `request.new_servers`: a
    /// leader in a stable configuration appends the joint configuration that
    /// starts the change. It is refused by any other replica, for an empty
    /// target, and while a joint configuration is current or the latest in the log.
    pub fn handle_set_configuration_rpc(&mut self, request: &SetConfigurationRequest) -> (response:
        SetConfigurationResponse)
        requires
            old(self).log.wf(),
        ensures
            old(self).wf() ==> final(self).wf(),
            final(self).log.wf(),
            final(self)@ == old(self)@.handle_set_configuration(request.new_servers.deep_view()).0,
            response.success == old(self)@.handle_set_configuration(
                request.new_servers.deep_view(),
            ).1,
    {
        proof {
            if self.wf() {
                lemma_step(self@, Event::SetConfiguration(request.new_servers.deep_view()));
            }
        }
        if self.state != State::Leader || request.new_servers.len() == 0
            || self.current_config.is_joint() || self.log_config_is_joint() {
            return SetConfigurationResponse { success: false };
        }
        let target = clone_servers(&request.new_servers);
        let done = self.append_and_replicate_config_change(Some(target));
        SetConfigurationResponse { success: done }
    }

    /// The term that a snapshot at `index` carries.
    fn snapshot_term(&self, index: u64) -> (r: u64)
        requires
            self.log.wf(),
        ensures
            r == self@.snapshot_term(index),
    {
        if index == self.snapshot.last_included_index {
            self.snapshot.last_included_term
        } else {
            match self.log.entry(index) {
                Some(e) => e.term,
                None => 0,
            }
        }
    }

    /// Reacts to a snapshot timeout. Where more committed entries than the
    /// threshold are held in memory, it returns the snapshot that the state machine
    /// has to write at the last applied entry; the caller reports back through
    /// `complete_snapshot`. Else it restarts the timer.
    pub fn handle_snapshot_timeout(&mut self) -> (plan: Option<SnapshotPlan>)
        requires
            old(self).log.wf(),
        ensures
            old(self).wf() ==> final(self).wf(),
            final(self).log.wf(),
            final(self)@ == old(self)@.handle_snapshot_timeout(),
            match plan {
                Some(p) => {
                    &&& old(self)@.snapshot_due() == Some(
                        (p.last_included_index, p.last_included_term),
                    )
                    &&& p.snapshot_filepath@ == snapshot_path(
                        old(self)@.snapshot.snapshot_dir,
                        p.last_included_index,
                        p.last_included_term,
                        ".snapshot"@,
                    )
                    &&& p.configuration@ == old(self)@.current_config
                },
                None => old(self)@.snapshot_due() is None,
            },
    {
        proof {
            if self.wf() {
                lemma_step(self@, Event::SnapshotTimeout);
            }
        }
        let index = self.last_applied;
        if self.log.committed_entries_len(self.commit_index) > SNAPSHOT_LOG_LENGTH_THRESHOLD && index
            > 0 {
            let term = self.snapshot_term(index);
            if term > 0 {
                return Some(
                    SnapshotPlan {
                        last_included_index: index,
                        last_included_term: term,
                        snapshot_filepath: self.snapshot.gen_snapshot_filepath(index, term),
                        configuration: self.current_config.clone(),
                    },
                );
            }
        }
        self.emit(Effect::ResetSnapshotTimer);
        None
    }

    /// Takes in whether the state machine wrote the snapshot of `plan`. Where it
    /// did, and the snapshot is not behind the current one and covers only what is
    /// applied, the snapshot becomes the current one and the log drops the prefix
    /// it covers; the path of the metadata sidecar to write is returned. The
    /// snapshot timer is restarted either way.
    pub fn complete_snapshot(&mut self, plan: SnapshotPlan, file_exists: bool) -> (metadata_path:
        Option<String>)
        requires
            old(self).log.wf(),
        ensures
            old(self).wf() ==> final(self).wf(),
            final(self).log.wf(),
            final(self)@ == old(self)@.complete_snapshot(
                plan.last_included_index,
                plan.last_included_term,
                plan.configuration@,
                file_exists,
            ),
            match metadata_path {
                Some(path) => file_exists && old(self)@.snapshot_usable(plan.last_included_index)
                    && path@ == snapshot_path(
                    old(self)@.snapshot.snapshot_dir,
                    plan.last_included_index,
                    plan.last_included_term,
                    ".snapshot.metadata"@,
                ),
                None => !(file_exists && old(self)@.snapshot_usable(plan.last_included_index)),
            },
    {
        proof {
            if self.wf() {
                lemma_step(
                    self@,
                    Event::SnapshotWritten {
                        index: plan.last_included_index,
                        term: plan.last_included_term,
                        config: plan.configuration@,
                        file_exists,
                    },
                );
            }
        }
        let index = plan.last_included_index;
        if !file_exists || index < self.snapshot.last_included_index || index > self.last_applied
            || index >= u64::MAX - 1 {
            self.emit(Effect::ResetSnapshotTimer);
            return None;
        }
        let path = self.snapshot.take_snapshot_metadata(
            index,
            plan.last_included_term,
            Some(plan.configuration),
        );
        self.log.truncate_prefix(index);
        self.emit(Effect::PersistLog);
        self.emit(Effect::ResetSnapshotTimer);
        Some(path)
    }

    /// The chunk that begins at offset `global_offset` of the stream that carries a
    /// snapshot to a peer, or `None` at and after its end.
    pub fn snapshot_chunk(meta_size: u64, snap_size: u64, global_offset: u64) -> (chunk: Option<
        SnapshotChunk,
    >)
        ensures
            chunk == chunk_at(meta_size, snap_size, global_offset),
            chunk matches Some(c) ==> 1 <= c.len <= SNAPSHOT_TRUNK_SIZE && (c.done <==> c.data_type
                == SnapshotDataType::Snapshot && global_offset + c.len == meta_size + snap_size),
            chunk is None <==> global_offset >= meta_size + snap_size,
    {
        let trunk: u64 = SNAPSHOT_TRUNK_SIZE as u64;
        if global_offset < meta_size {
            let rest = meta_size - global_offset;
            let len = if rest < trunk {
                rest
            } else {
                trunk
            };
            Some(
                SnapshotChunk {
                    data_type: SnapshotDataType::Metadata,
                    local_offset: global_offset,
                    global_offset,
                    len,
                    done: false,
                },
            )
        } else if global_offset - meta_size < snap_size {
            let local = global_offset - meta_size;
            let rest = snap_size - local;
            let len = if rest < trunk {
                rest
            } else {
                trunk
            };
            Some(
                SnapshotChunk {
                    data_type: SnapshotDataType::Snapshot,
                    local_offset: local,
                    global_offset,
                    len,
                    done: len >= rest,
                },
            )
        } else {
            None
        }
    }

    /// The request that carries the chunk `chunk` with the bytes `data` to a peer.
    pub fn install_snapshot_request(&self, chunk: &SnapshotChunk, data: Vec<u8>) -> (request:
        InstallSnapshotRequest)
        ensures
            request.term == self@.current_term(),
            request.leader_id == self@.server_id,
            request.last_included_index == self@.snapshot.last_included_index,
            request.last_included_term == self@.snapshot.last_included_term,
            request.offset == chunk.global_offset,
            request.data@ == data@,
            snapshot_data_kind(request.snapshot_data_type) == chunk.data_type,
            request.done == chunk.done,
    {
        InstallSnapshotRequest {
            term: self.metadata.current_term(),
            leader_id: self.server_id,
            last_included_index: self.snapshot.last_included_index,
            last_included_term: self.snapshot.last_included_term,
            offset: chunk.global_offset,
            data,
            snapshot_data_type: chunk.data_type.to_i32(),
            done: chunk.done,
        }
    }

    /// Answers a chunk of a snapshot. A chunk of a stale term, or of term 0, is
    /// refused without any change and nothing is to be written. Otherwise this
    /// replica follows the sender, and the chunk is to be written to the temporary
    /// file of its kind as returned: the first chunk of either file creates it, and
    /// every chunk goes to its offset in its own file. After the last chunk
    /// (`request.done`) the caller moves the temporary files into place and calls
    /// `finish_install_snapshot`.
    pub fn handle_install_snapshot_rpc(&mut self, request: &InstallSnapshotRequest) -> (r: (
        InstallSnapshotResponse,
        Option<ChunkWrite>,
    ))
        ensures
            old(self).wf() ==> final(self).wf(),
            final(self)@ == old(self)@.handle_install_snapshot(
                request.term,
                request.leader_id,
                snapshot_data_kind(request.snapshot_data_type),
                request.offset,
            ),
            r.0.term == final(self)@.current_term(),
            r.1 is Some <==> old(self)@.takes_chunk(request.term),
            r.1 matches Some(w) ==> {
                &&& w.path@ == snapshot_path(
                    old(self)@.snapshot.snapshot_dir,
                    request.last_included_index,
                    request.last_included_term,
                    tmp_suffix(snapshot_data_kind(request.snapshot_data_type)),
                )
                &&& w.create == old(self)@.chunk_begins_file(
                    snapshot_data_kind(request.snapshot_data_type),
                    request.offset,
                )
                &&& w.offset == old(self)@.chunk_local_offset(
                    snapshot_data_kind(request.snapshot_data_type),
                    request.offset,
                )
            },
            old(self).log.wf() ==> final(self).log.wf(),
    {
        proof {
            if self.wf() {
                lemma_step(
                    self@,
                    Event::InstallSnapshotChunk {
                        term: request.term,
                        leader_id: request.leader_id,
                        data_type: snapshot_data_kind(request.snapshot_data_type),
                        offset: request.offset,
                    },
                );
            }
        }
        let current_term = self.metadata.current_term();
        if request.term == 0 || request.term < current_term {
            return (InstallSnapshotResponse { term: current_term }, None);
        }
        self.follow(request.term, request.leader_id);
        let kind = SnapshotDataType::kind_of(request.snapshot_data_type);
        let before = if request.offset == 0 {
            None
        } else {
            self.incoming_meta_size
        };
        let (path, create, offset) = match kind {
            SnapshotDataType::Metadata => (
                self.snapshot.gen_tmp_snapshot_metadata_filepath(
                    request.last_included_index,
                    request.last_included_term,
                ),
                request.offset == 0,
                request.offset,
            ),
            SnapshotDataType::Snapshot => {
                let path = self.snapshot.gen_tmp_snapshot_filepath(
                    request.last_included_index,
                    request.last_included_term,
                );
                match before {
                    Some(size) => (
                        path,
                        false,
                        if size <= request.offset {
                            request.offset - size
                        } else {
                            0
                        },
                    ),
                    None => (path, true, 0),
                }
            },
        };
        self.incoming_meta_size = match kind {
            SnapshotDataType::Metadata => before,
            SnapshotDataType::Snapshot => match before {
                Some(size) => Some(size),
                None => Some(request.offset),
            },
        };
        (
            InstallSnapshotResponse { term: self.metadata.current_term() },
            Some(ChunkWrite { path, create, offset }),
        )
    }

    /// Puts a received snapshot in place, once its files have their final names:
    /// `loaded` is the content of the latest metadata sidecar, `snapshot_file` the
    /// path of the latest snapshot file, if there is one.
    ///
    /// Metadata that is behind the current snapshot changes nothing. Else it
    /// becomes the current snapshot and the log drops the prefix that it covers. A
    /// snapshot that does not lie behind what was applied is restored into the
    /// state machine; applied and commit index move up to it and its configuration
    /// becomes the current one.
    pub fn finish_install_snapshot(&mut self, loaded: Option<SnapshotMetadata>, snapshot_file: Option<String>)
        requires
            old(self).log.wf(),
        ensures
            old(self).wf() ==> final(self).wf(),
            final(self).log.wf(),
            final(self)@ == old(self)@.finish_install(
                reloaded(old(self)@.snapshot, loaded),
                snapshot_file.deep_view(),
            ),
    {
        proof {
            if self.wf() {
                lemma_step(
                    self@,
                    Event::InstallSnapshotDone {
                        snapshot: reloaded(self@.snapshot, loaded),
                        file: snapshot_file.deep_view(),
                    },
                );
            }
        }
        self.put_snapshot_in_place(loaded, snapshot_file);
    }

    /// Takes over the snapshot metadata `loaded` and what follows from it.
    fn put_snapshot_in_place(&mut self, loaded: Option<SnapshotMetadata>, snapshot_file: Option<String>)
        requires
            old(self).log.wf(),
        ensures
            final(self).log.wf(),
            final(self)@ == old(self)@.finish_install(
                reloaded(old(self)@.snapshot, loaded),
                snapshot_file.deep_view(),
            ),
    {
        self.incoming_meta_size = None;
        let index = match &loaded {
            Some(m) => m.last_included_index,
            None => self.snapshot.last_included_index,
        };
        if index < self.snapshot.last_included_index || index >= u64::MAX - 1 {
            return ;
        }
        self.snapshot.reload_metadata(loaded);
        if index >= self.last_applied {
            match snapshot_file {
                Some(path) => {
                    self.emit(Effect::RestoreSnapshot(path));
                },
                None => {},
            }
            self.last_applied = index;
            if self.commit_index < index {
                self.commit_index = index;
            }
            let config = match &self.snapshot.configuration {
                Some(c) => Some(c.clone()),
                None => None,
            };
            match config {
                Some(c) => {
                    self.set_config(c);
                },
                None => {},
            }
        }
        self.log.truncate_prefix(index);
        self.emit(Effect::PersistLog);
    }

    /// The configuration that a replica starts with.
    fn choose_initial_config(
        snapshot: &Snapshot,
        log: &Log,
        initial_peers_info: Vec<ServerInfo>,
        server_id: u64,
        server_addr: &String,
    ) -> (r: Config)
        ensures
            r@ == initial_config(
                snapshot@,
                log@,
                initial_peers_info.deep_view(),
                ServerInfoView { server_id, server_addr: server_addr@ },
            ),
    {
        match &snapshot.configuration {
            Some(c) => {
                return c.clone();
            },
            None => {},
        }
        match log.last_configuration() {
            Some(c) => {
                return c;
            },
            None => {},
        }
        let ghost given = initial_peers_info.deep_view();
        let mut servers = initial_peers_info;
        if !contains_server(&servers, server_id) {
            servers.push(ServerInfo { server_id, server_addr: server_addr.clone() });
            assert(servers.deep_view() =~= given.push(
                ServerInfoView { server_id, server_addr: server_addr@ },
            ));
        }
        let config = Config::new_stable(servers);
        assert(config@.old_servers =~= Seq::empty());
        config
    }

    /// The peers of a replica that starts with the servers `servers`: one for every
    /// server but itself.
    fn initial_peers(servers: &Vec<ServerInfo>, server_id: u64, next: u64) -> (r: Vec<Peer>)
        ensures
            r.deep_view() == servers.deep_view().filter(is_other(server_id)).map_values(
                joining_map(next),
            ),
    {
        let ghost all = servers.deep_view();
        let ghost test = is_other(server_id);
        let ghost make = joining_map(next);
        let mut out: Vec<Peer> = Vec::new();
        let mut i: usize = 0;
        proof {
            reveal(Seq::filter);
            assert(all.take(0).len() == 0);
            assert(out.deep_view() =~= all.take(0).filter(test).map_values(make));
        }
        while i < servers.len()
            invariant
                i <= servers.len(),
                all == servers.deep_view(),
                test == is_other(server_id),
                make == joining_map(next),
                out.deep_view() == all.take(i as int).filter(test).map_values(make),
            decreases servers.len() - i,
        {
            let ghost so_far = out.deep_view();
            let ghost kept = all.take(i as int).filter(test);
            proof {
                reveal(Seq::filter);
                assert(all.take(i + 1).drop_last() =~= all.take(i as int));
                assert(all.take(i + 1).last() == all[i as int]);
            }
            if servers[i].server_id != server_id {
                let mut peer = Peer::new(servers[i].server_id, servers[i].server_addr.clone());
                peer.next_index = next;
                assert(all[i as int] == servers[i as int]@);
                assert(peer@ == peer_for(all[i as int], next));
                out.push(peer);
                assert(out.deep_view() =~= so_far.push(peer_for(all[i as int], next)));
                assert(kept.push(all[i as int]).map_values(make) =~= kept.map_values(make).push(
                    peer_for(all[i as int], next),
                ));
            }
            i += 1;
        }
        assert(all.take(i as int) =~= all);
        out
    }

    /// The consensus state of a replica that starts up with what it found on disk:
    /// `metadata`, `log` and `snapshot` as loaded, and `snapshot_file`, the path of
    /// the latest snapshot file, if there is one.
    ///
    /// The replica starts as a follower without a leader, at the address `[::1]:<port>`.
    /// Its configuration is the snapshot's, else the most recent one in the log,
    /// else the stable configuration of `initial_peers_info` and itself. Where a
    /// snapshot with its file exists, the state machine is to be restored from it
    /// and applied and commit index start at the snapshot; else the replica starts
    /// without a snapshot. The log drops the prefix that the snapshot covers, and is
    /// emptied where it begins too late to continue the snapshot. The peer table
    /// holds one peer for every server of the configuration but this one.
    pub fn new(
        server_id: u64,
        port: u32,
        initial_peers_info: Vec<ServerInfo>,
        metadata: Metadata,
        log: Log,
        snapshot: Snapshot,
        snapshot_file: Option<String>,
    ) -> (r: Consensus)
        requires
            log.wf(),
        ensures
            r.wf(),
            r@.server_id == server_id,
            r@.server_addr == "[::1]:"@ + decimal_chars(port as nat),
            r@.metadata.metadata == metadata@,
            r@.metadata.outbox.len() == 0,
            r@.state == State::Follower,
            r@.leader_id == NONE_SERVER_ID,
            r@.incoming_meta_size is None,
            r@.current_config == initial_config(
                snapshot@,
                log@,
                initial_peers_info.deep_view(),
                r@.own_info(),
            ),
            r@.node_config_state == r@.current_config.node_state(server_id),
            r@.snapshot == initial_snapshot(snapshot@, snapshot_file.deep_view()),
            r@.log == initial_log(log@, r@.snapshot.last_included_index),
            r@.commit_index == r@.snapshot.last_included_index,
            r@.last_applied == r@.snapshot.last_included_index,
            r@.effects == if starts_from_snapshot(snapshot@, snapshot_file.deep_view()) {
                seq![EffectView::RestoreSnapshot(snapshot_file->0@)]
            } else {
                Seq::empty()
            },
            exists|servers: Seq<ServerInfoView>|
                {
                    &&& forall|i: int|
                        0 <= i < servers.len() ==> is_last_with_id(
                            r@.current_config.joined(),
                            #[trigger] servers[i],
                        )
                    &&& forall|i: int, j: int|
                        0 <= i < j < servers.len() ==> (#[trigger] servers[i]).server_id != (
                        #[trigger] servers[j]).server_id
                    &&& forall|id: u64| has_server(servers, id) <==> r@.current_config.has_id(id)
                    &&& r@.peers == servers.filter(is_other(server_id)).map_values(
                        joining_map(index_after(r@.last_log_index())),
                    ).map_values(membership_map(r@.current_config))
                },
    {
        let mut server_addr = String::from_str("[::1]:");
        push_decimal(&mut server_addr, port as u64);
        let config = Self::choose_initial_config(
            &snapshot,
            &log,
            initial_peers_info,
            server_id,
            &server_addr,
        );
        let node_config_state = config.get_node_state(server_id);
        let from_snapshot = snapshot.last_included_index > 0 && snapshot_file.is_some()
            && snapshot.last_included_index < u64::MAX - 1;
        let snapshot = if from_snapshot {
            snapshot
        } else {
            Snapshot::new(snapshot.snapshot_dir)
        };
        let index = snapshot.last_included_index;
        let mut log = log;
        if log.start_index() <= index + 1 {
            log.truncate_prefix(index);
        } else {
            log.restart(index + 1);
        }
        let mut consensus = Consensus {
            server_id,
            server_addr,
            metadata: MetadataManager::new(metadata),
            state: State::Follower,
            current_config: config,
            node_config_state,
            log,
            commit_index: index,
            last_applied: index,
            leader_id: NONE_SERVER_ID,
            peer_manager: PeerManager::new(),
            snapshot,
            incoming_meta_size: None,
            effects: Vec::new(),
        };
        assert(consensus.effects.deep_view() =~= Seq::empty());
        if from_snapshot {
            match snapshot_file {
                Some(path) => {
                    let ghost p = path@;
                    consensus.emit(Effect::RestoreSnapshot(path));
                    assert(consensus@.effects =~= seq![EffectView::RestoreSnapshot(p)]);
                },
                None => {},
            }
        }
        let servers = consensus.current_config.all_servers_in_config();
        let next = consensus.next_peer_index();
        let peers = Self::initial_peers(&servers, server_id, next);
        consensus.peer_manager.extend(peers);
        consensus.peer_manager.set_membership(&consensus.current_config);
        proof {
            let made = servers.deep_view().filter(is_other(server_id)).map_values(joining_map(next));
            assert(Seq::<PeerView>::empty() + made =~= made);
            let flagged = made.map_values(membership_map(consensus@.current_config));
            assert(consensus@.peers == flagged);
            assert forall|i: int| 0 <= i < flagged.len() implies (#[trigger] flagged[i]).config_state
                == consensus@.current_config.node_state(flagged[i].id) by {}
        }
        consensus
    }
}

} // verus!
