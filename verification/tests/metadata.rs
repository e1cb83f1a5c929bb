use keep_running::raft::config::{
    ELECTION_TIMEOUT_MAX_MILLIS, ELECTION_TIMEOUT_MIN_MILLIS, HEARTBEAT_INTERVAL_MILLIS,
    NONE_SERVER_ID,
};
use keep_running::raft::metadata::{Metadata, MetadataManager, MetadataPersister, PersistCommand};
use keep_running::raft::state_machine::SimpleStateMachine;
use keep_running::raft::util::rand_election_timeout;

#[test]
fn manager_queues_only_changes() {
    let initial = Metadata::new("/meta".to_string());
    assert_eq!(initial.current_term, 0);
    assert_eq!(initial.voted_for, NONE_SERVER_ID);
    let mut manager = MetadataManager::new(initial);
    manager.update_current_term(0);
    manager.update_voted_for(0);
    assert!(manager.take_commands().is_empty());
    manager.update_voted_for(7);
    manager.update_current_term(50);
    // the vote of the earlier term is forgotten
    assert_eq!(manager.voted_for(), 0);
    // the term never falls
    manager.update_current_term(49);
    assert_eq!(manager.current_term(), 50);
    manager.update_voted_for(10);
    manager.update_voted_for(10);
    manager.update_current_term(50);
    assert_eq!(manager.voted_for(), 10);
    manager.sync();
    assert_eq!(manager.get().current_term, 50);
    assert_eq!(manager.get().voted_for, 10);
    assert_eq!(manager.get().metadata_dir, "/meta");
    assert_eq!(manager.current_term(), 50);
    assert_eq!(manager.voted_for(), 10);
    assert_eq!(
        manager.take_commands(),
        vec![
            PersistCommand::UpdateVotedFor(7),
            PersistCommand::UpdateTerm(50),
            PersistCommand::UpdateVotedFor(10),
            PersistCommand::Flush
        ]
    );
    assert!(manager.take_commands().is_empty());
    assert_eq!(manager.current_term(), 50);
}

#[test]
fn persister_writes_on_flush_while_dirty() {
    let mut persister = MetadataPersister::new(Metadata::new("/meta".to_string()));
    assert!(persister.handle(PersistCommand::Flush).is_none());
    assert!(persister.pending_write().is_none());
    assert!(persister.handle(PersistCommand::UpdateTerm(0)).is_none());
    assert!(persister.handle(PersistCommand::Flush).is_none());
    assert!(persister.handle(PersistCommand::UpdateTerm(101)).is_none());
    assert!(persister.handle(PersistCommand::UpdateVotedFor(20)).is_none());
    let write = persister.handle(PersistCommand::Flush).unwrap();
    assert_eq!((write.current_term, write.voted_for), (101, 20));
    assert_eq!(write.metadata_dir, "/meta");
    // the write failed: the next flush tries again
    let again = persister.handle(PersistCommand::Flush).unwrap();
    assert_eq!((again.current_term, again.voted_for), (101, 20));
    persister.written();
    assert!(persister.handle(PersistCommand::Flush).is_none());
    assert!(persister.handle(PersistCommand::UpdateVotedFor(30)).is_none());
    let tick = persister.pending_write().unwrap();
    assert_eq!((tick.current_term, tick.voted_for), (101, 30));
    // a higher term forgets the vote in the file too; a lower one is ignored
    assert!(persister.handle(PersistCommand::UpdateTerm(102)).is_none());
    assert!(persister.handle(PersistCommand::UpdateTerm(5)).is_none());
    let risen = persister.handle(PersistCommand::Flush).unwrap();
    assert_eq!((risen.current_term, risen.voted_for), (102, 0));
}

#[test]
fn load_starts_fresh_without_a_file() {
    let fresh = Metadata::load("/meta", None);
    assert_eq!((fresh.current_term, fresh.voted_for), (0, 0));
    assert_eq!(fresh.metadata_dir, "/meta");
    let found = Metadata { current_term: 150, voted_for: 30, metadata_dir: "/other".to_string() };
    let loaded = Metadata::load("/meta", Some(found.clone()));
    assert_eq!((loaded.current_term, loaded.voted_for), (150, 30));
    assert_eq!(loaded.metadata_dir, "/other");
    assert_eq!(Metadata::gen_metadata_filepath("/meta"), "/meta/raft.metadata");
}

#[test]
fn election_timeout_lies_in_range() {
    assert!(HEARTBEAT_INTERVAL_MILLIS < ELECTION_TIMEOUT_MIN_MILLIS);
    let mut seen = std::collections::HashSet::new();
    for _ in 0..200 {
        let t = rand_election_timeout();
        assert!(ELECTION_TIMEOUT_MIN_MILLIS <= t && t < ELECTION_TIMEOUT_MAX_MILLIS);
        seen.insert(t);
    }
    assert!(seen.len() > 1);
}

#[test]
fn simple_state_machine_keeps_payloads() {
    let mut machine = SimpleStateMachine::new();
    assert!(machine.get_entries().is_empty());
    machine.apply(&b"one".to_vec());
    machine.apply(&vec![0xff, 0x41]);
    assert_eq!(machine.get_entries(), vec!["one".to_string(), "\u{fffd}A".to_string()]);
    let text = machine.snapshot_text();
    assert_eq!(text, "[[111,110,101],[255,65]]");
    let mut other = SimpleStateMachine::default();
    assert!(!other.restore_from_text("not json"));
    assert!(other.get_entries().is_empty());
    assert!(other.restore_from_text(&text));
    assert_eq!(other.get_entries(), machine.get_entries());
    assert!(other.restore_from_text("[]"));
    assert!(other.get_entries().is_empty());
}
