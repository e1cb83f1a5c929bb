use std::collections::HashMap;

use keep_running::raft::config::Config;
use keep_running::raft::consensus::{
    AppendPlan, Consensus, Effect, ProposeStep, SnapshotTransfer, State,
};
use keep_running::raft::log::Log;
use keep_running::raft::metadata::Metadata;
use keep_running::raft::proto::{
    AppendEntriesRequest, EntryType, GetConfigurationRequest, GetLeaderRequest, ProposeRequest,
    ProposeResponse, ServerInfo, SetConfigurationRequest, SnapshotDataType,
};
use keep_running::raft::snapshot::{Snapshot, SnapshotDirEntry, SnapshotMetadata};
use keep_running::raft::state_machine::SimpleStateMachine;

/// One replica with everything that surrounds its consensus state in a process.
struct Node {
    consensus: Consensus,
    machine: SimpleStateMachine,
    files: HashMap<String, Vec<u8>>,
    connected: bool,
    timers_stopped: bool,
    election_timer_resets: usize,
    log_writes: usize,
}

/// A cluster of replicas that exchange their messages by direct calls.
struct Cluster {
    nodes: Vec<Node>,
}

fn servers(n: u64) -> Vec<ServerInfo> {
    (1..=n).map(|id| ServerInfo { server_id: id, server_addr: format!("[::1]:{}", 9000 + id) }).collect()
}

fn encode_metadata(meta: &SnapshotMetadata) -> Vec<u8> {
    let config = meta.configuration.as_ref().map(|c| c.to_data());
    serde_json::to_vec(&(meta.last_included_index, meta.last_included_term, config)).unwrap()
}

fn decode_metadata(bytes: &[u8]) -> SnapshotMetadata {
    let (index, term, config): (u64, u64, Option<Vec<u8>>) = serde_json::from_slice(bytes).unwrap();
    SnapshotMetadata {
        last_included_index: index,
        last_included_term: term,
        configuration: config.map(|data| Config::from_data(&data).unwrap()),
    }
}

impl Node {
    fn dir_entries(&self) -> Vec<SnapshotDirEntry> {
        let mut paths: Vec<&String> = self.files.keys().collect();
        paths.sort();
        paths
            .into_iter()
            .map(|path| SnapshotDirEntry {
                file_name: path.rsplit('/').next().unwrap().to_string(),
                path: path.clone(),
            })
            .collect()
    }

    fn perform_local_effects(&mut self) -> bool {
        let mut replicate = false;
        for effect in self.consensus.take_effects() {
            match effect {
                Effect::Apply(data) => self.machine.apply(&data),
                Effect::RestoreSnapshot(path) => {
                    let text = String::from_utf8(self.files[&path].clone()).unwrap();
                    assert!(self.machine.restore_from_text(&text));
                }
                Effect::Replicate => replicate = true,
                Effect::StopTimers => self.timers_stopped = true,
                Effect::ResetElectionTimer => self.election_timer_resets += 1,
                Effect::PersistLog => self.log_writes += 1,
                Effect::ResetHeartbeatTimer | Effect::ResetSnapshotTimer => {}
            }
        }
        self.consensus.metadata.take_commands();
        replicate
    }
}

impl Cluster {
    fn new(n: u64) -> Cluster {
        let mut nodes = Vec::new();
        for id in 1..=n {
            let dir = format!("/raft/{}", id);
            let consensus = Consensus::new(
                id,
                (9000 + id) as u32,
                servers(n),
                Metadata::new(dir.clone()),
                Log::new(1, dir.clone()),
                Snapshot::new(dir),
                None,
            );
            nodes.push(Node {
                consensus,
                machine: SimpleStateMachine::new(),
                files: HashMap::new(),
                connected: true,
                timers_stopped: false,
                election_timer_resets: 0,
                log_writes: 0,
            });
        }
        Cluster { nodes }
    }

    fn node(&mut self, id: u64) -> &mut Node {
        &mut self.nodes[(id - 1) as usize]
    }

    fn consensus(&self, id: u64) -> &Consensus {
        &self.nodes[(id - 1) as usize].consensus
    }

    fn reachable(&self, id: u64) -> bool {
        id >= 1 && (id as usize) <= self.nodes.len() && self.nodes[(id - 1) as usize].connected
    }

    /// Performs the effects of node `id` until none is left.
    fn settle(&mut self, id: u64) {
        loop {
            if self.node(id).consensus.effects.is_empty() {
                break;
            }
            if self.node(id).perform_local_effects() {
                self.round(id, false);
            }
        }
    }

    /// One round of replication, or of heartbeats, from node `id`.
    fn round(&mut self, id: u64, heartbeat: bool) {
        for peer_id in self.node(id).consensus.peer_manager.server_ids() {
            self.send_to_peer(id, peer_id, heartbeat);
        }
        self.node(id).consensus.leader_advance_commit_index();
    }

    fn send_to_peer(&mut self, id: u64, peer_id: u64, heartbeat: bool) {
        match self.node(id).consensus.append_one_entry_to_peer(peer_id, heartbeat) {
            AppendPlan::Send { addr, request } => {
                assert_eq!(addr, format!("[::1]:{}", 9000 + peer_id));
                let sent = request.entries.len() as u64;
                let response = if self.reachable(peer_id) && self.reachable(id) {
                    let response = self.node(peer_id).consensus.handle_append_entries_rpc(&request);
                    self.settle(peer_id);
                    Some(response)
                } else {
                    None
                };
                self.node(id).consensus.handle_append_entries_response(
                    peer_id,
                    request.prev_log_index,
                    sent,
                    response,
                );
            }
            AppendPlan::InstallSnapshot => self.send_snapshot(id, peer_id),
            AppendPlan::NotLeader | AppendPlan::PeerMissing => {}
        }
    }

    /// Streams the latest snapshot of node `id` to `peer_id`, chunk by chunk.
    fn send_snapshot(&mut self, id: u64, peer_id: u64) {
        let entries = self.node(id).dir_entries();
        let meta_path = self.node(id).consensus.snapshot.latest_metadata_filepath(&entries).unwrap();
        let snap_path = self.node(id).consensus.snapshot.latest_snapshot_filepath(&entries).unwrap();
        let meta = self.node(id).files[&meta_path].clone();
        let snap = self.node(id).files[&snap_path].clone();
        let mut transfer =
            SnapshotTransfer::new(peer_id, meta.len() as u64, snap.len() as u64).unwrap();
        let mut next = transfer.chunk();
        while let Some(chunk) = next {
            let file = match chunk.data_type {
                SnapshotDataType::Metadata => &meta,
                SnapshotDataType::Snapshot => &snap,
            };
            let from = chunk.local_offset as usize;
            let data = file[from..from + chunk.len as usize].to_vec();
            let request = self.node(id).consensus.install_snapshot_request(&chunk, data);
            if !self.reachable(peer_id) {
                next = self.node(id).consensus.snapshot_chunk_answered(&mut transfer, None);
                assert!(next.is_none());
                continue;
            }
            let follower = self.node(peer_id);
            let (response, write) = follower.consensus.handle_install_snapshot_rpc(&request);
            if let Some(write) = write {
                assert_eq!(write.create, chunk.local_offset == 0);
                assert_eq!(write.offset, chunk.local_offset);
                if write.create {
                    follower.files.insert(write.path.clone(), Vec::new());
                }
                let content = follower.files.get_mut(&write.path).unwrap();
                assert_eq!(content.len() as u64, write.offset);
                content.extend_from_slice(&request.data);
                if request.done {
                    let (index, term) = (request.last_included_index, request.last_included_term);
                    let snapshot = &follower.consensus.snapshot;
                    let moves = vec![
                        (
                            snapshot.gen_tmp_snapshot_metadata_filepath(index, term),
                            snapshot.gen_snapshot_metadata_filepath(index, term),
                        ),
                        (
                            snapshot.gen_tmp_snapshot_filepath(index, term),
                            snapshot.gen_snapshot_filepath(index, term),
                        ),
                    ];
                    for (from, to) in moves {
                        let content = follower.files.remove(&from).unwrap();
                        follower.files.insert(to, content);
                    }
                    let entries = follower.dir_entries();
                    let loaded = follower
                        .consensus
                        .snapshot
                        .latest_metadata_filepath(&entries)
                        .map(|path| decode_metadata(&follower.files[&path]));
                    let file = follower.consensus.snapshot.latest_snapshot_filepath(&entries);
                    follower.consensus.finish_install_snapshot(loaded, file);
                }
            }
            self.settle(peer_id);
            next = self.node(id).consensus.snapshot_chunk_answered(&mut transfer, Some(response));
        }
    }

    /// Lets the election timer of node `id` fire and runs the election to its end.
    fn election(&mut self, id: u64) {
        if let Some(request) = self.node(id).consensus.handle_election_timeout() {
            for peer_id in self.node(id).consensus.peer_manager.server_ids() {
                let response = if self.reachable(peer_id) && self.reachable(id) {
                    let response = self.node(peer_id).consensus.handle_request_vote_rpc(&request);
                    self.settle(peer_id);
                    Some(response)
                } else {
                    None
                };
                self.node(id).consensus.handle_request_vote_response(peer_id, response);
            }
            self.node(id).consensus.conclude_election();
        }
        self.settle(id);
    }

    fn heartbeat(&mut self, id: u64) {
        if self.node(id).consensus.handle_heartbeat_timeout() {
            self.round(id, true);
        }
        self.settle(id);
    }

    fn propose(&mut self, id: u64, data: &[u8]) -> ProposeResponse {
        let step =
            self.node(id).consensus.handle_propose_rpc(&ProposeRequest { data: data.to_vec() });
        self.settle(id);
        match step {
            ProposeStep::Refused(response) => response,
            ProposeStep::Appended { index, term } => {
                self.node(id).consensus.propose_response(index, term)
            }
        }
    }

    /// Lets the snapshot timer of node `id` fire; returns whether a snapshot was taken.
    fn snapshot_tick(&mut self, id: u64) -> bool {
        let node = self.node(id);
        let taken = match node.consensus.handle_snapshot_timeout() {
            Some(plan) => {
                let text = node.machine.snapshot_text();
                node.files.insert(plan.snapshot_filepath.clone(), text.into_bytes());
                let meta = SnapshotMetadata {
                    last_included_index: plan.last_included_index,
                    last_included_term: plan.last_included_term,
                    configuration: Some(plan.configuration.clone()),
                };
                let path = node.consensus.complete_snapshot(plan, true).unwrap();
                node.files.insert(path, encode_metadata(&meta));
                true
            }
            None => false,
        };
        self.settle(id);
        taken
    }

    /// Stops node `id` and starts it again from what it had written to disk.
    fn restart(&mut self, id: u64) {
        let n = self.nodes.len() as u64;
        let node = self.node(id);
        let dir = format!("/raft/{}", id);
        let metadata = node.consensus.metadata.get();
        let mut log = Log::new(1, dir.clone());
        log.reload(node.consensus.log.dump());
        let mut snapshot = Snapshot::new(dir);
        let entries = node.dir_entries();
        let loaded =
            snapshot.latest_metadata_filepath(&entries).map(|path| decode_metadata(&node.files[&path]));
        snapshot.reload_metadata(loaded);
        let file = if snapshot.last_included_index > 0 {
            snapshot.latest_snapshot_filepath(&entries)
        } else {
            None
        };
        node.consensus =
            Consensus::new(id, (9000 + id) as u32, servers(n), metadata, log, snapshot, file);
        node.machine = SimpleStateMachine::new();
        node.timers_stopped = false;
        self.settle(id);
    }

    /// Term, commit index and applied index of every node.
    fn progress(&self) -> Vec<(u64, u64, u64)> {
        self.nodes
            .iter()
            .map(|n| (n.consensus.metadata.current_term(), n.consensus.commit_index, n.consensus.last_applied))
            .collect()
    }

    fn applied(&self, id: u64) -> Vec<String> {
        self.nodes[(id - 1) as usize].machine.get_entries()
    }

    fn leaders(&self) -> Vec<u64> {
        self.nodes
            .iter()
            .filter(|n| n.consensus.state == State::Leader)
            .map(|n| n.consensus.server_id)
            .collect()
    }
}

#[test]
fn leader_elect_on_5_node_cluster() {
    let mut cluster = Cluster::new(5);
    for id in 1..=5 {
        let c = cluster.consensus(id);
        assert_eq!(c.state, State::Follower);
        assert_eq!(c.server_addr, format!("[::1]:{}", 9000 + id));
        assert_eq!(c.peer_manager.len(), 4);
        assert!(!c.peer_manager.contains(id));
        assert!(c.current_config.is_stable());
        assert_eq!(c.metadata.current_term(), 0);
    }
    cluster.election(1);
    assert_eq!(cluster.leaders(), vec![1]);
    assert_eq!(cluster.consensus(1).leader_id, 1);
    for id in 1..=5 {
        let c = cluster.consensus(id);
        assert_eq!(c.metadata.current_term(), 1);
        assert_eq!(c.metadata.voted_for(), 1);
        if id != 1 {
            assert_eq!(c.state, State::Follower);
            assert_eq!(c.leader_id, 1);
            assert!(cluster.nodes[(id - 1) as usize].election_timer_resets > 0);
        }
        // the entry that the new leader appends has reached every log
        assert_eq!(c.log.entries().len(), 1);
        assert_eq!(c.log.entries()[0].term, 1);
        assert_eq!(c.log.entries()[0].entry_type, EntryType::Noop.to_i32());
        assert_eq!(c.log.entries()[0].data, b"None".to_vec());
    }
    assert_eq!(cluster.consensus(1).commit_index, 1);
    let leader = cluster.node(2).consensus.handle_get_leader_rpc(&GetLeaderRequest {});
    assert_eq!(leader.leader, Some(ServerInfo { server_id: 1, server_addr: "[::1]:9001".to_string() }));
    assert_eq!(leader.redirect_to, None);
}

#[test]
fn propose_and_replicate() {
    let mut cluster = Cluster::new(5);
    cluster.election(1);
    let response = cluster.propose(1, b"hello");
    assert!(response.success);
    assert_eq!(response.index, Some(1));
    assert_eq!(response.leader_addr, Some("[::1]:9001".to_string()));
    // followers learn of the commit with the next message of the leader
    cluster.heartbeat(1);
    for id in 1..=5 {
        assert_eq!(cluster.applied(id), vec!["hello".to_string()]);
        assert!(cluster.consensus(id).commit_index >= 1);
        assert_eq!(cluster.consensus(id).commit_index, 2);
        assert_eq!(cluster.consensus(id).last_applied, 2);
    }
    // a follower refuses and names the leader
    let refused = cluster.propose(3, b"nope");
    assert!(!refused.success);
    assert_eq!(refused.index, Some(1));
    assert_eq!(refused.leader_addr, Some("[::1]:9001".to_string()));
    assert_eq!(cluster.consensus(3).log.entries().len(), 2);
}

#[test]
fn leader_failure() {
    let mut cluster = Cluster::new(5);
    cluster.election(1);
    cluster.propose(1, b"hello");
    cluster.heartbeat(1);
    cluster.node(1).connected = false;
    cluster.election(2);
    assert_eq!(cluster.consensus(2).state, State::Leader);
    assert_eq!(cluster.consensus(2).metadata.current_term(), 2);
    for id in 3..=5 {
        assert_eq!(cluster.consensus(id).metadata.current_term(), 2);
        assert_eq!(cluster.consensus(id).metadata.voted_for(), 2);
        assert_eq!(cluster.consensus(id).leader_id, 2);
    }
    assert!(cluster.propose(2, b"world").success);
    cluster.heartbeat(2);
    for id in 2..=5 {
        assert_eq!(cluster.applied(id), vec!["hello".to_string(), "world".to_string()]);
    }
    assert_eq!(cluster.applied(1), vec!["hello".to_string()]);
    // the old leader comes back, hears of the new term and catches up
    cluster.node(1).connected = true;
    cluster.heartbeat(2);
    assert_eq!(cluster.consensus(1).state, State::Follower);
    assert_eq!(cluster.consensus(1).metadata.current_term(), 2);
    cluster.propose(2, b"again");
    cluster.heartbeat(2);
    assert_eq!(
        cluster.applied(1),
        vec!["hello".to_string(), "world".to_string(), "again".to_string()]
    );
    assert_eq!(cluster.leaders(), vec![2]);
}

#[test]
fn joint_consensus_shrink() {
    let mut cluster = Cluster::new(5);
    cluster.election(1);
    let target: Vec<ServerInfo> = servers(5).into_iter().filter(|s| [2, 3, 4].contains(&s.server_id)).collect();
    let response = cluster
        .node(1)
        .consensus
        .handle_set_configuration_rpc(&SetConfigurationRequest { new_servers: target.clone() });
    assert!(response.success);
    cluster.settle(1);

    // the log of the leader holds the joint configuration and then the stable one
    let configs: Vec<Config> = cluster
        .consensus(1)
        .log
        .entries()
        .iter()
        .filter(|e| e.entry_type == EntryType::Configuration.to_i32())
        .map(|e| Config::from_data(&e.data).unwrap())
        .collect();
    assert_eq!(configs.len(), 2);
    assert_eq!(configs[0], Config { old_servers: servers(5), new_servers: target.clone() });
    assert_eq!(configs[1], Config { old_servers: Vec::new(), new_servers: target.clone() });

    // both are committed on the leader, which is no member any more and has shut down
    assert_eq!(cluster.consensus(1).commit_index, 3);
    assert_eq!(cluster.consensus(1).state, State::Follower);
    assert!(cluster.nodes[0].timers_stopped);
    assert_eq!(cluster.consensus(1).peer_manager.len(), 0);
    assert!(cluster.leaders().is_empty());

    // servers 2, 3 and 4 form the new quorum
    cluster.election(2);
    assert_eq!(cluster.leaders(), vec![2]);
    cluster.heartbeat(2);
    for id in 2..=4 {
        let c = cluster.consensus(id);
        assert_eq!(c.current_config, Config { old_servers: Vec::new(), new_servers: target.clone() });
        assert!(c.commit_index >= 3);
        assert!(!cluster.nodes[(id - 1) as usize].timers_stopped);
        let mut peers = c.peer_manager.server_ids();
        peers.sort();
        let expected: Vec<u64> = [2, 3, 4].iter().copied().filter(|p| *p != id).collect();
        assert_eq!(peers, expected);
    }
    let listed = cluster
        .node(3)
        .consensus
        .handle_get_configuration_rpc(&GetConfigurationRequest {});
    let mut ids: Vec<u64> = listed.servers.iter().map(|s| s.server_id).collect();
    ids.sort();
    assert_eq!(ids, vec![2, 3, 4]);
    assert!(cluster.propose(2, b"after").success);
    cluster.heartbeat(2);
    for id in 2..=4 {
        assert_eq!(cluster.applied(id), vec!["after".to_string()]);
    }

    // server 5 is no member; once it hears that the stable configuration is
    // committed it shuts down
    assert!(!cluster.nodes[4].timers_stopped);
    let last = cluster.consensus(5).log.last_index(0);
    let request = AppendEntriesRequest {
        term: cluster.consensus(2).metadata.current_term(),
        leader_id: 2,
        prev_log_index: last,
        prev_log_term: cluster.consensus(5).log.last_term(0),
        entries: Vec::new(),
        leader_commit: last,
    };
    let response = cluster.node(5).consensus.handle_append_entries_rpc(&request);
    assert!(response.success);
    cluster.settle(5);
    assert!(cluster.nodes[4].timers_stopped);
    assert_eq!(cluster.consensus(5).state, State::Follower);
    assert_eq!(cluster.consensus(5).peer_manager.len(), 0);
}

#[test]
fn snapshot_and_install_snapshot() {
    let mut cluster = Cluster::new(5);
    cluster.election(1);
    cluster.node(5).connected = false;
    let payloads: Vec<String> = (0..10).map(|i| format!("entry-{}", i)).collect();
    for payload in payloads.iter() {
        assert!(cluster.propose(1, payload.as_bytes()).success);
    }
    cluster.heartbeat(1);
    assert_eq!(cluster.consensus(1).last_applied, 11);
    assert_eq!(cluster.applied(5), Vec::<String>::new());

    // the leader takes a snapshot at the last applied entry and drops the prefix
    assert!(cluster.snapshot_tick(1));
    assert_eq!(cluster.consensus(1).snapshot.last_included_index, 11);
    assert_eq!(cluster.consensus(1).snapshot.last_included_term, 1);
    assert_eq!(cluster.consensus(1).log.start_index(), 12);
    assert_eq!(cluster.consensus(1).log.entries().len(), 0);
    assert!(cluster.nodes[0].files.contains_key("/raft/1/raft-11-1.snapshot"));
    assert!(cluster.nodes[0].files.contains_key("/raft/1/raft-11-1.snapshot.metadata"));
    // nothing is due right after
    assert!(!cluster.snapshot_tick(1));

    assert!(cluster.propose(1, b"tail-1").success);
    assert!(cluster.propose(1, b"tail-2").success);
    cluster.node(5).connected = true;

    // the lagging follower gets the snapshot first
    cluster.round(1, false);
    cluster.settle(1);
    assert_eq!(cluster.consensus(5).snapshot.last_included_index, 11);
    assert_eq!(cluster.consensus(5).last_applied, 11);
    assert_eq!(cluster.consensus(5).log.start_index(), 12);
    assert_eq!(cluster.applied(5), payloads);
    assert!(cluster.nodes[4].files.contains_key("/raft/5/raft-11-1.snapshot"));
    assert!(cluster.nodes[4].files.contains_key("/raft/5/raft-11-1.snapshot.metadata"));
    assert_eq!(cluster.nodes[4].files.len(), 2);
    let peer = cluster.node(1).consensus.peer_manager.peer(5).unwrap();
    assert_eq!((peer.match_index, peer.next_index), (11, 12));

    // then the entries that follow it
    cluster.round(1, false);
    cluster.heartbeat(1);
    let mut expected = payloads.clone();
    expected.push("tail-1".to_string());
    expected.push("tail-2".to_string());
    for id in 1..=5 {
        assert_eq!(cluster.applied(id), expected);
        assert_eq!(cluster.consensus(id).commit_index, 13);
    }
}

#[test]
fn split_vote() {
    let mut cluster = Cluster::new(5);
    // servers 1 and 2 time out at once; 1 reaches only 3, 2 reaches only 4
    let request_1 = cluster.node(1).consensus.handle_election_timeout().unwrap();
    let request_2 = cluster.node(2).consensus.handle_election_timeout().unwrap();
    assert_eq!(request_1.term, 1);
    assert_eq!(request_2.term, 1);
    let from_3 = cluster.node(3).consensus.handle_request_vote_rpc(&request_1);
    let from_4 = cluster.node(4).consensus.handle_request_vote_rpc(&request_2);
    assert!(from_3.vote_granted && from_4.vote_granted);
    // each candidate refuses the other, and 3 and 4 have voted already
    assert!(!cluster.node(2).consensus.handle_request_vote_rpc(&request_1).vote_granted);
    assert!(!cluster.node(1).consensus.handle_request_vote_rpc(&request_2).vote_granted);
    assert!(!cluster.node(3).consensus.handle_request_vote_rpc(&request_2).vote_granted);
    assert!(!cluster.node(4).consensus.handle_request_vote_rpc(&request_1).vote_granted);
    cluster.node(1).consensus.handle_request_vote_response(3, Some(from_3));
    cluster.node(1).consensus.handle_request_vote_response(5, None);
    cluster.node(2).consensus.handle_request_vote_response(4, Some(from_4));
    cluster.node(2).consensus.handle_request_vote_response(5, None);
    cluster.node(1).consensus.conclude_election();
    cluster.node(2).consensus.conclude_election();
    assert!(cluster.leaders().is_empty());
    assert_eq!(cluster.consensus(1).state, State::Candidate);
    assert_eq!(cluster.consensus(2).state, State::Candidate);
    for id in 1..=4 {
        cluster.settle(id);
    }
    // server 1 times out again, in the next term, and wins
    cluster.election(1);
    assert_eq!(cluster.leaders(), vec![1]);
    assert_eq!(cluster.consensus(1).metadata.current_term(), 2);
    for id in 2..=5 {
        assert_eq!(cluster.consensus(id).state, State::Follower);
        assert_eq!(cluster.consensus(id).metadata.current_term(), 2);
        assert_eq!(cluster.consensus(id).metadata.voted_for(), 1);
    }
}

#[test]
fn single_server_elects_itself_and_commits_alone() {
    let mut cluster = Cluster::new(1);
    cluster.election(1);
    assert_eq!(cluster.leaders(), vec![1]);
    assert!(cluster.propose(1, b"solo").success);
    assert_eq!(cluster.applied(1), vec!["solo".to_string()]);
    assert_eq!(cluster.consensus(1).commit_index, 2);
    // a leader ignores its election timer
    assert!(cluster.node(1).consensus.handle_election_timeout().is_none());
    assert_eq!(cluster.consensus(1).metadata.current_term(), 1);
}

#[test]
fn minority_cannot_commit() {
    let mut cluster = Cluster::new(5);
    cluster.election(1);
    for id in 3..=5 {
        cluster.node(id).connected = false;
    }
    // the entry reaches no majority: the proposal fails though the leader holds it
    assert!(!cluster.propose(1, b"lost?").success);
    assert_eq!(cluster.consensus(1).log.entries().len(), 2);
    cluster.heartbeat(1);
    assert_eq!(cluster.consensus(1).commit_index, 1);
    assert_eq!(cluster.applied(1), Vec::<String>::new());
    // a candidate that reaches a minority only stays a candidate
    cluster.node(1).connected = false;
    cluster.election(2);
    assert_eq!(cluster.consensus(2).state, State::Candidate);
    assert_eq!(cluster.consensus(2).metadata.current_term(), 2);
    // with a majority back, the entry is committed by the leader of a later term
    for id in 1..=5 {
        cluster.node(id).connected = true;
    }
    // the stale leader hears of the higher term and steps down
    cluster.heartbeat(1);
    assert!(cluster.leaders().is_empty());
    assert_eq!(cluster.consensus(1).metadata.current_term(), 2);
    assert_eq!(cluster.consensus(1).metadata.voted_for(), 0);
    cluster.election(1);
    assert_eq!(cluster.leaders(), vec![1]);
    assert_eq!(cluster.consensus(1).metadata.current_term(), 3);
    // the followers refused the first round, which began after an entry they lack;
    // the next round begins one entry earlier
    assert_eq!(cluster.consensus(1).commit_index, 1);
    assert_eq!(cluster.node(1).consensus.peer_manager.peer(5).unwrap().next_index, 2);
    cluster.round(1, false);
    cluster.settle(1);
    assert_eq!(cluster.consensus(1).commit_index, 3);
    cluster.heartbeat(1);
    for id in 1..=5 {
        assert_eq!(cluster.applied(id), vec!["lost?".to_string()]);
        assert_eq!(cluster.consensus(id).log.entries().len(), 3);
    }
}

fn assert_no_fall(before: &[(u64, u64, u64)], after: &[(u64, u64, u64)]) {
    for (b, a) in before.iter().zip(after.iter()) {
        assert!(a.0 >= b.0 && a.1 >= b.1 && a.2 >= b.2, "{:?} fell to {:?}", b, a);
    }
}

fn assert_agreement(cluster: &Cluster) {
    let n = cluster.nodes.len() as u64;
    for a in 1..=n {
        for b in 1..=n {
            let (x, y) = (cluster.applied(a), cluster.applied(b));
            let common = x.len().min(y.len());
            assert_eq!(x[..common], y[..common], "servers {} and {} disagree", a, b);
        }
    }
}

#[test]
fn state_machines_agree_and_progress_never_falls() {
    let mut cluster = Cluster::new(5);
    let mut leaders_of_term: HashMap<u64, u64> = HashMap::new();
    let mut seen = cluster.progress();
    // each step: who is cut off, whose election timer fires, what is proposed where
    let steps: Vec<(Vec<u64>, Option<u64>, Option<(u64, &str)>)> = vec![
        (vec![], Some(1), Some((1, "a"))),
        (vec![4, 5], None, Some((1, "b"))),
        (vec![2, 3, 4, 5], None, Some((1, "lost-1"))),
        (vec![1], Some(3), Some((3, "c"))),
        (vec![1, 2], None, Some((3, "d"))),
        (vec![3, 4, 5], Some(2), Some((1, "lost-2"))),
        (vec![], Some(4), Some((4, "e"))),
        (vec![], None, Some((4, "f"))),
        (vec![5], Some(5), None),
        (vec![], Some(2), Some((2, "g"))),
    ];
    for (cut_off, timeout, proposal) in steps {
        for id in 1..=5 {
            cluster.node(id).connected = !cut_off.contains(&id);
        }
        if let Some(id) = timeout {
            cluster.election(id);
        }
        if let Some((id, data)) = proposal {
            cluster.propose(id, data.as_bytes());
        }
        for id in 1..=5 {
            cluster.heartbeat(id);
            cluster.round(id, false);
            cluster.settle(id);
            cluster.heartbeat(id);
        }
        for node in cluster.nodes.iter() {
            if node.consensus.state == State::Leader {
                let term = node.consensus.metadata.current_term();
                let leader = *leaders_of_term.entry(term).or_insert(node.consensus.server_id);
                assert_eq!(leader, node.consensus.server_id, "two leaders in term {}", term);
            }
        }
        let now = cluster.progress();
        assert_no_fall(&seen, &now);
        seen = now;
        assert_agreement(&cluster);
    }
    for id in 1..=5 {
        cluster.node(id).connected = true;
    }
    let leader = cluster.leaders().into_iter().max_by_key(|id| cluster.consensus(*id).metadata.current_term()).unwrap();
    for _ in 0..4 {
        cluster.round(leader, false);
        cluster.settle(leader);
        cluster.heartbeat(leader);
    }
    assert_agreement(&cluster);
    let all = cluster.applied(leader);
    for expected in ["a", "b", "c", "d", "e", "f", "g"] {
        assert_eq!(all.iter().filter(|p| p.as_str() == expected).count(), 1, "{}", expected);
    }
    for id in 1..=5 {
        assert_eq!(cluster.applied(id), all);
    }
    assert!(leaders_of_term.len() >= 3);
}

#[test]
fn committed_payload_survives_restart_of_a_minority() {
    let mut cluster = Cluster::new(5);
    cluster.election(1);
    assert!(cluster.propose(1, b"kept").success);
    cluster.heartbeat(1);
    for id in 1..=5 {
        assert_eq!(cluster.applied(id), vec!["kept".to_string()]);
    }
    // the leader and one follower crash and come back with what they had on disk
    cluster.restart(1);
    cluster.restart(2);
    for id in [1, 2] {
        let c = cluster.consensus(id);
        assert_eq!(c.state, State::Follower);
        assert_eq!(c.metadata.current_term(), 1);
        assert_eq!(c.metadata.voted_for(), 1);
        assert_eq!(c.log.entries().len(), 2);
        assert_eq!(c.log.entries()[1].data, b"kept".to_vec());
        assert_eq!((c.commit_index, c.last_applied), (0, 0));
    }
    cluster.election(3);
    assert_eq!(cluster.leaders(), vec![3]);
    cluster.heartbeat(3);
    for id in 1..=5 {
        assert_eq!(cluster.applied(id), vec!["kept".to_string()]);
        assert_eq!(cluster.consensus(id).log.entries()[1].data, b"kept".to_vec());
    }
}

#[test]
fn restart_resumes_from_snapshot() {
    let mut cluster = Cluster::new(3);
    cluster.election(1);
    let payloads: Vec<String> = (0..7).map(|i| format!("p{}", i)).collect();
    for payload in payloads.iter() {
        cluster.propose(1, payload.as_bytes());
    }
    cluster.heartbeat(1);
    assert!(cluster.snapshot_tick(2));
    assert_eq!(cluster.consensus(2).log.start_index(), 9);
    cluster.propose(1, b"after");
    cluster.heartbeat(1);
    cluster.restart(2);
    assert_eq!((cluster.consensus(2).commit_index, cluster.consensus(2).last_applied), (8, 8));
    assert_eq!(cluster.consensus(2).log.start_index(), 9);
    assert_eq!(cluster.applied(2), payloads);
    cluster.heartbeat(1);
    let mut expected = payloads.clone();
    expected.push("after".to_string());
    assert_eq!(cluster.applied(2), expected);
}
