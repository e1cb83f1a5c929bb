use keep_running::raft::config::ConfigState;
use keep_running::raft::peer::{Peer, PeerManager};

fn make_test_peer(id: u64, match_index: u64, newing: bool, olding: bool) -> Peer {
    Peer {
        id,
        addr: format!("127.0.0.1:{}", 9000 + id),
        next_index: 1,
        match_index,
        vote_granted: false,
        config_state: ConfigState { newing, olding },
    }
}

fn manager_of(peers: Vec<Peer>) -> PeerManager {
    let mut manager = PeerManager::new();
    manager.add(peers, 0);
    manager
}

#[test]
fn test_peers_basic_add() {
    let mut peer_manager = PeerManager::new();
    let peer1 = Peer {
        id: 1,
        addr: "127.0.0.1:9001".to_string(),
        next_index: 3,
        match_index: 2,
        vote_granted: false,
        config_state: ConfigState::new(),
    };
    let peer2 = Peer {
        id: 2,
        addr: "127.0.0.1:9002".to_string(),
        next_index: 2,
        match_index: 2,
        vote_granted: false,
        config_state: ConfigState::new(),
    };
    peer_manager.add(vec![peer1, peer2.clone()], 5);
    assert_eq!(peer_manager.peers().len(), 2);
    assert_eq!(peer_manager.peers()[0].next_index, 6);
    assert_eq!(peer_manager.peers()[1].next_index, 6);
    assert_eq!(peer_manager.peers()[0].id, 1);
    assert_eq!(peer_manager.peers()[1].id, 2);
}

#[test]
fn test_qmi_all_in_both_configs() {
    let leader_cs = ConfigState { newing: true, olding: true };
    let leader_last_idx = 100;
    let peer_manager = manager_of(vec![
        make_test_peer(1, 90, true, true),
        make_test_peer(2, 80, true, true),
    ]);
    assert_eq!(peer_manager.quoram_match_index(&leader_cs, leader_last_idx), 90);
}

#[test]
fn test_qmi_leader_in_new_peers_split() {
    let leader_cs = ConfigState { newing: true, olding: false };
    let leader_last_idx = 100;
    let peer_manager = manager_of(vec![
        make_test_peer(1, 90, true, false),
        make_test_peer(2, 80, false, true),
        make_test_peer(3, 70, false, true),
    ]);
    assert_eq!(peer_manager.quoram_match_index(&leader_cs, leader_last_idx), 70);
}

#[test]
fn test_qmi_no_quorum_in_old_config() {
    let leader_cs = ConfigState { newing: true, olding: false };
    let leader_last_idx = 100;
    let peer_manager = manager_of(vec![
        make_test_peer(1, 90, true, false),
        make_test_peer(2, 85, true, false),
    ]);
    assert_eq!(peer_manager.quoram_match_index(&leader_cs, leader_last_idx), 90);
}

#[test]
fn test_qmi_no_quorum_in_new_config() {
    let leader_cs = ConfigState { newing: false, olding: true };
    let leader_last_idx = 100;
    let peer_manager = manager_of(vec![
        make_test_peer(1, 90, false, true),
        make_test_peer(2, 85, false, true),
    ]);
    assert_eq!(peer_manager.quoram_match_index(&leader_cs, leader_last_idx), 90);
}

#[test]
fn test_qmi_no_quorum_in_either_config() {
    let leader_cs = ConfigState { newing: false, olding: false };
    let leader_last_idx = 100;
    let peer_manager = manager_of(vec![make_test_peer(1, 90, false, false)]);
    assert_eq!(peer_manager.quoram_match_index(&leader_cs, leader_last_idx), std::u64::MAX);
}

#[test]
fn quorum_median_of_even_set_is_lower_middle() {
    let leader_cs = ConfigState { newing: true, olding: false };
    let peer_manager = manager_of(vec![
        make_test_peer(1, 40, true, false),
        make_test_peer(2, 10, true, false),
        make_test_peer(3, 30, true, false),
    ]);
    // sorted: [10, 20, 30, 40]; element (4 - 1) / 2 = 1 is 20
    assert_eq!(peer_manager.quoram_match_index(&leader_cs, 20), 20);
}

#[test]
fn vote_quorum_needs_strict_majority_in_both_sets() {
    let mut manager = manager_of(vec![
        make_test_peer(2, 0, true, true),
        make_test_peer(3, 0, true, false),
        make_test_peer(4, 0, false, true),
    ]);
    let candidate = ConfigState { newing: true, olding: true };
    // new set {1, 2, 3}: own vote only, 1 of 3
    assert!(!manager.quorum_vote_granted(&candidate));
    manager.peer(3).unwrap().vote_granted = true;
    // new set: 2 of 3; old set {1, 2, 4}: 1 of 3
    assert!(!manager.quorum_vote_granted(&candidate));
    manager.peer(4).unwrap().vote_granted = true;
    // old set: 2 of 3
    assert!(manager.quorum_vote_granted(&candidate));
    manager.reset_vote();
    assert!(!manager.quorum_vote_granted(&candidate));
    // two of four is no strict majority
    let mut even = manager_of(vec![
        make_test_peer(2, 0, true, false),
        make_test_peer(3, 0, true, false),
        make_test_peer(4, 0, true, false),
    ]);
    let stable = ConfigState { newing: true, olding: false };
    even.peer(2).unwrap().vote_granted = true;
    assert!(!even.quorum_vote_granted(&stable));
    even.peer(3).unwrap().vote_granted = true;
    assert!(even.quorum_vote_granted(&stable));
    // a candidate outside every set with no members needs no vote
    let empty = PeerManager::new();
    assert!(empty.quorum_vote_granted(&ConfigState { newing: false, olding: false }));
}

#[test]
fn remove_drops_first_peer_with_each_id() {
    let mut manager = manager_of(vec![
        make_test_peer(1, 0, true, false),
        make_test_peer(2, 0, true, false),
        make_test_peer(3, 0, true, false),
    ]);
    manager.remove(vec![2, 9]);
    assert_eq!(manager.server_ids(), vec![1, 3]);
    assert_eq!(manager.len(), 2);
    assert!(manager.contains(1));
    assert!(!manager.contains(2));
    assert_eq!(manager.position(3), Some(1));
    assert!(manager.peer(2).is_none());
    manager.peers_mut()[0].match_index = 7;
    assert_eq!(manager.peers()[0].match_index, 7);
}

#[test]
fn new_peer_starts_at_index_one() {
    let peer = Peer::new(4, "addr".to_string());
    assert_eq!(peer.id, 4);
    assert_eq!(peer.addr, "addr");
    assert_eq!(peer.next_index, 1);
    assert_eq!(peer.match_index, 0);
    assert!(!peer.vote_granted);
    assert_eq!(peer.config_state, ConfigState { newing: true, olding: false });
    assert_eq!(ConfigState::default(), ConfigState { newing: false, olding: false });
}
