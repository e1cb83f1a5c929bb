use keep_running::raft::config::Config;
use keep_running::raft::log::{Log, StoredLog};
use keep_running::raft::proto::{EntryType, LogEntry, ServerInfo};

#[test]
fn test_log_basic_operations() {
    let test_dir = "./test_log_basic";
    let mut log = Log::new(1, test_dir.to_string());

    log.append_data(1, vec![(EntryType::Data, "test1".as_bytes().to_vec())]);
    log.append_data(1, vec![(EntryType::Data, "test2".as_bytes().to_vec())]);

    assert_eq!(log.entries().len(), 2);
    assert_eq!(log.start_index(), 1);
    assert_eq!(log.entry(1).unwrap().data, "test1".as_bytes());
    assert_eq!(log.entry(1).unwrap().index, 1);
    assert_eq!(log.entry(2).unwrap().data, "test2".as_bytes());
    assert_eq!(log.entry(2).unwrap().index, 2);
    assert_eq!(log.last_index(0), 2);
    assert_eq!(log.last_term(0), 1);

    let packed_all = log.pack_entries(1);
    assert_eq!(packed_all.len(), 2);
    assert_eq!(packed_all[0].data, "test1".as_bytes());
    assert_eq!(packed_all[1].data, "test2".as_bytes());

    let packed_from_2 = log.pack_entries(2);
    assert_eq!(packed_from_2.len(), 1);
    assert_eq!(packed_from_2[0].data, "test2".as_bytes());

    let packed_from_3 = log.pack_entries(3);
    assert_eq!(packed_from_3.len(), 0);

    let packed_from_4 = log.pack_entries(4);
    assert_eq!(packed_from_4.len(), 0);

    assert_eq!(log.prev_log_term(2, 0, 0), 1);
    assert_eq!(log.prev_log_term(1, 0, 0), 1);
    assert_eq!(log.prev_log_term(0, 0, 0), 0);
}

#[test]
fn test_log_append_entries() {
    let test_dir = "./test_log_append_entries";
    let mut log = Log::new(1, test_dir.to_string());

    let entries_to_add = vec![
        LogEntry { index: 1, term: 1, entry_type: EntryType::Data.into(), data: b"entry1".to_vec() },
        LogEntry { index: 2, term: 1, entry_type: EntryType::Data.into(), data: b"entry2".to_vec() },
    ];
    log.append_entries(entries_to_add);
    assert_eq!(log.entries().len(), 2);
    assert_eq!(log.last_index(0), 2);
    assert_eq!(log.entry(2).unwrap().data, b"entry2".to_vec());

    let more_entries = vec![LogEntry {
        index: 3,
        term: 2,
        entry_type: EntryType::Data.into(),
        data: b"entry3".to_vec(),
    }];
    log.append_entries(more_entries);
    assert_eq!(log.entries().len(), 3);
    assert_eq!(log.last_index(0), 3);
    assert_eq!(log.entry(3).unwrap().term, 2);
}

#[test]
fn test_truncate_suffix() {
    let test_dir = "./test_truncate_suffix";
    let mut log = Log::new(1, test_dir.to_string());
    log.append_data(1, vec![(EntryType::Data, b"1".to_vec())]);
    log.append_data(1, vec![(EntryType::Data, b"2".to_vec())]);
    log.append_data(1, vec![(EntryType::Data, b"3".to_vec())]);
    log.append_data(1, vec![(EntryType::Data, b"4".to_vec())]);
    log.append_data(1, vec![(EntryType::Data, b"5".to_vec())]);
    assert_eq!(log.entries().len(), 5);

    log.truncate_suffix(3);
    assert_eq!(log.entries().len(), 3);
    assert_eq!(log.last_index(0), 3);
    assert_eq!(log.entry(3).unwrap().data, b"3".to_vec());
    assert!(log.entry(4).is_none());

    log.truncate_suffix(1);
    assert_eq!(log.entries().len(), 1);
    assert_eq!(log.last_index(0), 1);
    assert_eq!(log.entry(1).unwrap().data, b"1".to_vec());
    assert!(log.entry(2).is_none());

    log.truncate_suffix(0);
    assert_eq!(log.entries().len(), 0);
    assert_eq!(log.last_index(0), 0);

    log.append_data(2, vec![(EntryType::Data, b"n1".to_vec())]);
    log.append_data(2, vec![(EntryType::Data, b"n2".to_vec())]);
    log.truncate_suffix(2);
    assert_eq!(log.entries().len(), 2);
    assert_eq!(log.last_index(0), 2);

    log.truncate_suffix(3);
    assert_eq!(log.entries().len(), 2);
    assert_eq!(log.last_index(0), 2);
}

#[test]
fn test_truncate_prefix() {
    let test_dir = "./test_truncate_prefix";
    let mut log = Log::new(1, test_dir.to_string());
    for i in 1..=5 {
        log.append_data(1, vec![(EntryType::Data, i.to_string().as_bytes().to_vec())]);
    }
    assert_eq!(log.entries().len(), 5);
    assert_eq!(log.start_index(), 1);

    log.truncate_prefix(2);
    assert_eq!(log.entries().len(), 3);
    assert_eq!(log.start_index(), 3);
    assert_eq!(log.entry(3).unwrap().data, b"3".to_vec());
    assert_eq!(log.entry(5).unwrap().data, b"5".to_vec());
    assert!(log.entry(2).is_some());
    assert_eq!(log.entry(2).unwrap().index, 0);
    assert_eq!(log.last_index(2), 5);

    for i in 6..=8 {
        log.append_data(1, vec![(EntryType::Data, i.to_string().as_bytes().to_vec())]);
    }
    assert_eq!(log.entries().len(), 6);
    assert_eq!(log.last_index(2), 8);

    log.truncate_prefix(5);
    assert_eq!(log.entries().len(), 3);
    assert_eq!(log.start_index(), 6);
    assert_eq!(log.entry(6).unwrap().data, b"6".to_vec());
    assert_eq!(log.last_index(5), 8);

    log.truncate_prefix(8);
    assert_eq!(log.entries().len(), 0);
    assert_eq!(log.start_index(), 9);
    assert_eq!(log.last_index(8), 8);

    log.truncate_prefix(7);
    assert_eq!(log.entries().len(), 0);
    assert_eq!(log.start_index(), 9);
}

#[test]
fn test_log_persistence() {
    let test_dir = "./test_log_persistence";
    let stored;
    {
        let mut log = Log::new(1, test_dir.to_string());
        log.append_data(1, vec![(EntryType::Data, b"persist1".to_vec())]);
        log.append_data(2, vec![(EntryType::Data, b"persist2".to_vec())]);
        stored = log.dump();
    }

    let mut reloaded_log = Log::new(1, test_dir.to_string());
    assert_eq!(reloaded_log.entries().len(), 0);
    reloaded_log.reload(stored);

    assert_eq!(reloaded_log.entries().len(), 2);
    assert_eq!(reloaded_log.start_index(), 1);
    assert_eq!(reloaded_log.entry(1).unwrap().data, b"persist1".to_vec());
    assert_eq!(reloaded_log.entry(1).unwrap().term, 1);
    assert_eq!(reloaded_log.entry(2).unwrap().data, b"persist2".to_vec());
    assert_eq!(reloaded_log.entry(2).unwrap().term, 2);
    assert_eq!(reloaded_log.last_index(0), 2);

    reloaded_log.truncate_prefix(1);
    let stored_again = reloaded_log.dump();
    drop(reloaded_log);

    let mut final_log = Log::new(1, test_dir.to_string());
    final_log.reload(stored_again);
    assert_eq!(final_log.entries().len(), 1);
    assert_eq!(final_log.start_index(), 2);
    assert_eq!(final_log.entry(2).unwrap().data, b"persist2".to_vec());
}

#[test]
fn test_last_configuration() {
    let test_dir = "./test_last_configuration";
    let mut log = Log::new(1, test_dir.to_string());

    assert!(log.last_configuration().is_none());

    let cfg_data1 = Config::new_stable(vec![ServerInfo {
        server_id: 1,
        server_addr: "addr1".to_string(),
    }])
    .to_data();
    log.append_data(1, vec![(EntryType::Configuration, cfg_data1.clone())]);

    let cfg_data2 = Config::new_stable(vec![
        ServerInfo { server_id: 1, server_addr: "addr1".to_string() },
        ServerInfo { server_id: 2, server_addr: "addr2".to_string() },
    ])
    .to_data();
    log.append_data(1, vec![(EntryType::Data, b"some data".to_vec())]);
    log.append_data(2, vec![(EntryType::Configuration, cfg_data2.clone())]);

    if let Some(last_cfg) = log.last_configuration() {
        assert_eq!(last_cfg.new_servers.len(), 2);
        assert_eq!(last_cfg.new_servers[1].server_id, 2);
    } else {
        panic!("Expected to find a configuration");
    }

    log.append_data(2, vec![(EntryType::Data, b"more data".to_vec())]);
    if let Some(last_cfg) = log.last_configuration() {
        assert_eq!(last_cfg.new_servers.len(), 2);
    } else {
        panic!("Expected to find a configuration");
    }

    log.truncate_suffix(2);
    if let Some(last_cfg) = log.last_configuration() {
        assert_eq!(last_cfg.new_servers.len(), 1);
        assert_eq!(last_cfg.new_servers[0].server_id, 1);
    } else {
        panic!("Expected to find a configuration after truncating to idx 2");
    }

    log.truncate_suffix(0);
    assert!(log.last_configuration().is_none());
}

#[test]
fn test_entry_method_with_snapshot_boundary() {
    let test_dir = "./test_entry_snapshot_boundary";
    let mut log = Log::new(1, test_dir.to_string());
    log.append_data(1, vec![(EntryType::Data, b"1".to_vec())]);
    log.append_data(1, vec![(EntryType::Data, b"2".to_vec())]);
    log.append_data(1, vec![(EntryType::Data, b"3".to_vec())]);

    log.truncate_prefix(1);

    assert_eq!(log.start_index(), 2);

    let entry0 = log.entry(0).unwrap();
    assert_eq!(entry0.index, 0);
    assert_eq!(entry0.term, 0);

    let entry1 = log.entry(1).unwrap();
    assert_eq!(entry1.index, 0);
    assert_eq!(entry1.term, 0);

    let entry2 = log.entry(2).unwrap();
    assert_eq!(entry2.index, 2);
    assert_eq!(entry2.data, b"2".to_vec());

    let entry3 = log.entry(3).unwrap();
    assert_eq!(entry3.index, 3);
    assert_eq!(entry3.data, b"3".to_vec());

    assert!(log.entry(4).is_none());
}

#[test]
fn test_last_index_and_term_with_snapshot() {
    let test_dir = "./test_last_index_term_snapshot";
    let mut log = Log::new(1, test_dir.to_string());

    assert_eq!(log.last_index(0), 0);
    assert_eq!(log.last_term(0), 0);

    log.append_data(1, vec![(EntryType::Data, b"1".to_vec())]);
    log.append_data(2, vec![(EntryType::Data, b"2".to_vec())]);
    assert_eq!(log.last_index(0), 2);
    assert_eq!(log.last_term(0), 2);

    let last_included_idx_snap = 2;
    let last_included_term_snap = 2;
    log.truncate_prefix(last_included_idx_snap);

    assert_eq!(log.entries().len(), 0);
    assert_eq!(log.start_index(), 3);

    assert_eq!(log.last_index(last_included_idx_snap), last_included_idx_snap);
    assert_eq!(log.last_term(last_included_term_snap), last_included_term_snap);

    log.append_data(3, vec![(EntryType::Data, b"3".to_vec())]);
    assert_eq!(log.last_index(last_included_idx_snap), 3);
    assert_eq!(log.last_term(last_included_term_snap), 3);
}

#[test]
fn append_data_assigns_consecutive_indices_and_kinds() {
    let mut log = Log::new(4, "dir".to_string());
    log.append_data(
        7,
        vec![
            (EntryType::Noop, b"a".to_vec()),
            (EntryType::Configuration, b"b".to_vec()),
            (EntryType::Data, b"c".to_vec()),
        ],
    );
    let expected = vec![
        LogEntry { index: 4, term: 7, entry_type: 1, data: b"a".to_vec() },
        LogEntry { index: 5, term: 7, entry_type: 2, data: b"b".to_vec() },
        LogEntry { index: 6, term: 7, entry_type: 0, data: b"c".to_vec() },
    ];
    assert_eq!(log.entries(), &expected);
    assert_eq!(log.next_index(), 7);
    assert_eq!(log.committed_entries_len(3), 0);
    assert_eq!(log.committed_entries_len(4), 1);
    assert_eq!(log.committed_entries_len(5), 2);
    assert_eq!(log.committed_entries_len(100), 3);
    assert_eq!(log.last_configuration_data(), Some(&b"b".to_vec()));
    // the payload of the configuration entry encodes no configuration
    assert!(log.last_configuration().is_none());
    assert_eq!(log.prev_log_term(3, 3, 9), 9);
    assert_eq!(log.prev_log_term(2, 3, 9), 0);
    assert_eq!(log.prev_log_term(8, 3, 9), 0);
    assert_eq!(log.pack_entries(3), Vec::<LogEntry>::new());
    assert_eq!(log.pack_entries(6), vec![expected[2].clone()]);
}

#[test]
fn accepts_only_entries_that_continue_the_log() {
    let mut log = Log::new(1, "dir".to_string());
    log.append_data(1, vec![(EntryType::Data, b"x".to_vec())]);
    let entry = |index: u64| LogEntry { index, term: 1, entry_type: 0, data: Vec::new() };
    assert!(log.accepts(&vec![]));
    assert!(log.accepts(&vec![entry(2), entry(3)]));
    assert!(!log.accepts(&vec![entry(3)]));
    assert!(!log.accepts(&vec![entry(2), entry(4)]));
    assert!(!log.accepts(&vec![entry(1)]));
}

#[test]
fn reload_falls_back_to_empty_log() {
    let mut log = Log::new(1, "dir".to_string());
    log.append_data(1, vec![(EntryType::Data, b"x".to_vec())]);
    log.reload(StoredLog::Absent);
    assert_eq!(log.entries().len(), 1);
    log.reload(StoredLog::Content {
        entries: vec![LogEntry { index: 9, term: 1, entry_type: 0, data: Vec::new() }],
        start_index: 3,
    });
    assert_eq!(log.entries().len(), 0);
    assert_eq!(log.start_index(), 1);
    log.reload(StoredLog::Content {
        entries: vec![LogEntry { index: 3, term: 1, entry_type: 0, data: Vec::new() }],
        start_index: 3,
    });
    assert_eq!(log.entries().len(), 1);
    assert_eq!(log.start_index(), 3);
    log.reload(StoredLog::Unreadable);
    assert_eq!(log.entries().len(), 0);
    assert_eq!(log.start_index(), 1);
    assert_eq!(Log::gen_log_filepath("/var/raft"), "/var/raft/raft.log");
}
