use keep_running::raft::config::Config;
use keep_running::raft::proto::ServerInfo;
use keep_running::raft::snapshot::{Snapshot, SnapshotDirEntry, SnapshotMetadata};
use keep_running::raft::text::decimal_string;

fn entry(name: &str) -> SnapshotDirEntry {
    SnapshotDirEntry { file_name: name.to_string(), path: format!("/snap/{}", name) }
}

#[test]
fn parses_well_formed_names() {
    assert_eq!(Snapshot::parse_snapshot_filename("raft-12-3.snapshot", ".snapshot"), Some((12, 3)));
    assert_eq!(
        Snapshot::parse_snapshot_filename("raft-12-3.snapshot.metadata", ".snapshot.metadata"),
        Some((12, 3))
    );
    assert_eq!(Snapshot::parse_snapshot_filename("raft-0-0.snapshot", ".snapshot"), Some((0, 0)));
    assert_eq!(Snapshot::parse_snapshot_filename("raft-007-010.snapshot", ".snapshot"), Some((7, 10)));
    assert_eq!(
        Snapshot::parse_snapshot_filename("raft-18446744073709551615-1.snapshot", ".snapshot"),
        Some((u64::MAX, 1))
    );
}

#[test]
fn refuses_other_names() {
    let no: Option<(u64, u64)> = None;
    // the other extension
    assert_eq!(Snapshot::parse_snapshot_filename("raft-12-3.snapshot", ".snapshot.metadata"), no);
    assert_eq!(Snapshot::parse_snapshot_filename("raft-12-3.snapshot.metadata", ".snapshot"), no);
    // an extension that names no snapshot file
    assert_eq!(Snapshot::parse_snapshot_filename("raft-12-3.snapshot.tmp", ".snapshot.tmp"), no);
    assert_eq!(Snapshot::parse_snapshot_filename("raft-12-3", ""), no);
    // numbers that do not fit
    assert_eq!(
        Snapshot::parse_snapshot_filename("raft-18446744073709551616-1.snapshot", ".snapshot"),
        no
    );
    assert_eq!(
        Snapshot::parse_snapshot_filename("raft-1-99999999999999999999999.snapshot", ".snapshot"),
        no
    );
    // malformed
    for name in [
        "",
        "raft",
        "raft-",
        "raft--3.snapshot",
        "raft-12-.snapshot",
        "raft-12.snapshot",
        "raft-12-3snapshot",
        "raft-12-3.snapshot ",
        " raft-12-3.snapshot",
        "Raft-12-3.snapshot",
        "raft-1a-3.snapshot",
        "raft-12-3-4.snapshot",
        "raft-+1-3.snapshot",
        "raft-12-3.snapshot\n",
        "raft-\u{661}-3.snapshot",
    ] {
        assert_eq!(Snapshot::parse_snapshot_filename(name, ".snapshot"), no, "{:?}", name);
    }
}

#[test]
fn generated_names_parse_back() {
    let snapshot = Snapshot::new("/snap".to_string());
    assert_eq!(snapshot.gen_snapshot_filepath(11, 2), "/snap/raft-11-2.snapshot");
    assert_eq!(snapshot.gen_snapshot_metadata_filepath(11, 2), "/snap/raft-11-2.snapshot.metadata");
    assert_eq!(snapshot.gen_tmp_snapshot_filepath(11, 2), "/snap/raft-11-2.snapshot.tmp");
    assert_eq!(
        snapshot.gen_tmp_snapshot_metadata_filepath(0, u64::MAX),
        "/snap/raft-0-18446744073709551615.snapshot.metadata.tmp"
    );
    for (index, term) in [(0u64, 0u64), (9, 10), (100, 99), (u64::MAX, u64::MAX)] {
        let path = snapshot.gen_snapshot_filepath(index, term);
        let name = path.rsplit('/').next().unwrap();
        assert_eq!(Snapshot::parse_snapshot_filename(name, ".snapshot"), Some((index, term)));
    }
}

#[test]
fn latest_file_is_greatest_by_index_then_term() {
    let mut snapshot = Snapshot::new("/snap".to_string());
    let entries = vec![
        entry("raft-5-1.snapshot"),
        entry("raft-12-1.snapshot"),
        entry("raft-12-3.snapshot.metadata"),
        entry("raft-12-2.snapshot"),
        entry("raft-012-2.snapshot"),
        entry("raft-9-9.snapshot"),
        entry("raft-99-9.snapshot.tmp"),
        entry("notes.txt"),
        entry("raft-12-1.snapshot.metadata"),
    ];
    assert_eq!(
        snapshot.latest_snapshot_filepath(&entries),
        Some("/snap/raft-12-2.snapshot".to_string())
    );
    assert_eq!(
        snapshot.latest_metadata_filepath(&entries),
        Some("/snap/raft-12-3.snapshot.metadata".to_string())
    );
    assert_eq!(
        snapshot.latest_file_with_pattern(&entries, ".snapshot.tmp"),
        None
    );
    // a snapshot at (0, 0) is one like any other, and the lowest
    let zero = vec![entry("x"), entry("raft-0-0.snapshot"), entry("raft-00-0.snapshot")];
    assert_eq!(snapshot.latest_snapshot_filepath(&zero), Some("/snap/raft-0-0.snapshot".to_string()));
    assert_eq!(snapshot.latest_metadata_filepath(&zero), None);
    let first = vec![entry("raft-0-0.snapshot"), entry("raft-0-1.snapshot")];
    assert_eq!(snapshot.latest_snapshot_filepath(&first), Some("/snap/raft-0-1.snapshot".to_string()));
    assert_eq!(snapshot.latest_snapshot_filepath(&Vec::new()), None);
}

#[test]
fn metadata_is_taken_and_reloaded() {
    let mut snapshot = Snapshot::new("/snap".to_string());
    assert_eq!(snapshot.last_included_index, 0);
    assert_eq!(snapshot.last_included_term, 0);
    assert!(snapshot.configuration.is_none());
    let config =
        Config::new_stable(vec![ServerInfo { server_id: 1, server_addr: "a".to_string() }]);
    let path = snapshot.take_snapshot_metadata(7, 2, Some(config.clone()));
    assert_eq!(path, "/snap/raft-7-2.snapshot.metadata");
    assert_eq!(snapshot.last_included_index, 7);
    assert_eq!(snapshot.last_included_term, 2);
    assert_eq!(snapshot.configuration, Some(config));
    snapshot.reload_metadata(None);
    assert_eq!(snapshot.last_included_index, 7);
    snapshot.reload_metadata(Some(SnapshotMetadata {
        last_included_index: 9,
        last_included_term: 3,
        configuration: None,
    }));
    assert_eq!(snapshot.last_included_index, 9);
    assert_eq!(snapshot.last_included_term, 3);
    assert!(snapshot.configuration.is_none());
    assert_eq!(snapshot.snapshot_dir, "/snap");
}

#[test]
fn decimal_text_of_numbers() {
    assert_eq!(decimal_string(0), "0");
    assert_eq!(decimal_string(7), "7");
    assert_eq!(decimal_string(10), "10");
    assert_eq!(decimal_string(9001), "9001");
    assert_eq!(decimal_string(u64::MAX), "18446744073709551615");
}
