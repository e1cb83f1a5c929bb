//! Snapshot bookkeeping: metadata of the latest snapshot and the names of its files.
//!
//! A snapshot at `(index, term)` lives in the files `raft-<index>-<term>.snapshot`
//! and `raft-<index>-<term>.snapshot.metadata` of the snapshot directory; files
//! still being received carry the further suffix `.tmp`.
use vstd::prelude::*;
use vstd::string::StringExecFns;
use vstd::utf8::encode_utf8;
use crate::raft::config::{Config, ConfigView};
use crate::raft::text::{decimal_chars, push_decimal};

verus! {

/// Metadata of the latest snapshot of a replica.
#[derive(Debug)]
pub struct Snapshot {
    pub last_included_index: u64,
    pub last_included_term: u64,
    pub configuration: Option<Config>,
    pub snapshot_dir: String,
}

/// Mathematical value of a `Snapshot`.
pub struct SnapshotView {
    pub last_included_index: u64,
    pub last_included_term: u64,
    pub configuration: Option<ConfigView>,
    pub snapshot_dir: Seq<char>,
}

impl View for Snapshot {
    type V = SnapshotView;

    open spec fn view(&self) -> SnapshotView {
        SnapshotView {
            last_included_index: self.last_included_index,
            last_included_term: self.last_included_term,
            configuration: self.configuration.deep_view(),
            snapshot_dir: self.snapshot_dir@,
        }
    }
}

/// What a metadata sidecar holds.
#[derive(Debug)]
pub struct SnapshotMetadata {
    pub last_included_index: u64,
    pub last_included_term: u64,
    pub configuration: Option<Config>,
}

/// The snapshot metadata after the content `loaded` of the latest sidecar was taken
/// over; unchanged where there is none.
pub open spec fn reloaded(before: SnapshotView, loaded: Option<SnapshotMetadata>) -> SnapshotView {
    match loaded {
        Some(m) => SnapshotView {
            last_included_index: m.last_included_index,
            last_included_term: m.last_included_term,
            configuration: m.configuration.deep_view(),
            snapshot_dir: before.snapshot_dir,
        },
        None => before,
    }
}

/// One entry of the snapshot directory: the name of a file and its full path.
#[derive(Debug)]
pub struct SnapshotDirEntry {
    pub file_name: String,
    pub path: String,
}

/// The bytes of `raft-`.
pub open spec fn raft_prefix() -> Seq<u8> {
    seq![114u8, 97u8, 102u8, 116u8, 45u8]
}

/// The bytes of `.snapshot`.
pub open spec fn snapshot_extension() -> Seq<u8> {
    seq![46u8, 115u8, 110u8, 97u8, 112u8, 115u8, 104u8, 111u8, 116u8]
}

/// The bytes of `.snapshot.metadata`.
pub open spec fn metadata_extension() -> Seq<u8> {
    snapshot_extension() + seq![46u8, 109u8, 101u8, 116u8, 97u8, 100u8, 97u8, 116u8, 97u8]
}

/// Whether `b` is an ASCII decimal digit.
pub open spec fn is_digit(b: u8) -> bool {
    48 <= b <= 57
}

/// The first position at or after `from` that holds no digit.
pub open spec fn digits_end(s: Seq<u8>, from: int) -> int
    decreases s.len() - from,
{
    if from < 0 || from >= s.len() || !is_digit(s[from]) {
        from
    } else {
        digits_end(s, from + 1)
    }
}

/// The number that a string of decimal digits denotes.
pub open spec fn decimal_value(digits: Seq<u8>) -> nat
    decreases digits.len(),
{
    if digits.len() == 0 {
        0
    } else {
        decimal_value(digits.drop_last()) * 10 + (digits.last() - 48) as nat
    }
}

/// The `(index, term)` that a file name denotes.
///
/// The name must read `raft-`, one or more digits, `-`, one or more digits, and then
/// `ext`, which must be `.snapshot` or `.snapshot.metadata`; both numbers must fit a `u64`.
pub open spec fn parsed_snapshot_name(name: Seq<u8>, ext: Seq<u8>) -> Option<(u64, u64)> {
    let index_end = digits_end(name, 5);
    let term_end = digits_end(name, index_end + 1);
    let index = decimal_value(name.subrange(5, index_end));
    let term = decimal_value(name.subrange(index_end + 1, term_end));
    if name.len() >= 5 && name.subrange(0, 5) == raft_prefix() && 5 < index_end < name.len()
        && name[index_end] == 45 && index_end + 1 < term_end && name.subrange(
        term_end,
        name.len() as int,
    ) == ext && (ext == snapshot_extension() || ext == metadata_extension()) && index <= u64::MAX
        && term <= u64::MAX {
        Some((index as u64, term as u64))
    } else {
        None
    }
}

/// The order of snapshots: by index, then by term.
pub open spec fn key_less(a: (u64, u64), b: (u64, u64)) -> bool {
    a.0 < b.0 || (a.0 == b.0 && a.1 < b.1)
}

/// The snapshot that a file name with the extension `ext` denotes, if it denotes one.
pub open spec fn candidate_key(file_name: Seq<char>, ext: Seq<u8>) -> Option<(u64, u64)> {
    parsed_snapshot_name(encode_utf8(file_name), ext)
}

/// Whether entry `p` is the first among the entries that denote the latest snapshot.
pub open spec fn is_latest(names: Seq<Seq<char>>, ext: Seq<u8>, p: int) -> bool {
    &&& 0 <= p < names.len()
    &&& candidate_key(names[p], ext) is Some
    &&& forall|j: int|
        0 <= j < names.len() && candidate_key(#[trigger] names[j], ext) is Some ==> !key_less(
            candidate_key(names[p], ext)->0,
            candidate_key(names[j], ext)->0,
        )
    &&& forall|j: int|
        0 <= j < p && candidate_key(#[trigger] names[j], ext) is Some ==> key_less(
            candidate_key(names[j], ext)->0,
            candidate_key(names[p], ext)->0,
        )
}

/// The names of a list of directory entries.
pub open spec fn entry_names(entries: Seq<SnapshotDirEntry>) -> Seq<Seq<char>> {
    Seq::new(entries.len(), |i: int| entries[i].file_name@)
}

/// The path `<dir>/raft-<index>-<term><suffix>`.
pub open spec fn snapshot_path(dir: Seq<char>, index: u64, term: u64, suffix: Seq<char>) -> Seq<char> {
    dir + "/raft-"@ + decimal_chars(index as nat) + "-"@ + decimal_chars(term as nat) + suffix
}

/// A run of digits extends a shorter run of the same start to a value at least as large.
proof fn lemma_decimal_value_step(s: Seq<u8>, from: int, i: int)
    requires
        0 <= from <= i < s.len(),
    ensures
        decimal_value(s.subrange(from, i + 1)) == decimal_value(s.subrange(from, i)) * 10 + (s[i]
            - 48) as nat,
{
    assert(s.subrange(from, i + 1).drop_last() =~= s.subrange(from, i));
}

/// The end of the run of digits that begins at `from`, and the number it denotes,
/// or `None` for the number where it exceeds `u64::MAX`.
fn scan_number(bytes: &[u8], from: usize) -> (r: (usize, Option<u64>))
    requires
        from <= bytes@.len(),
    ensures
        r.0 == digits_end(bytes@, from as int),
        from <= r.0 <= bytes@.len(),
        match r.1 {
            Some(v) => v == decimal_value(bytes@.subrange(from as int, r.0 as int)),
            None => decimal_value(bytes@.subrange(from as int, r.0 as int)) > u64::MAX,
        },
{
    let mut i: usize = from;
    let mut value: u64 = 0;
    let mut overflow = false;
    assert(bytes@.subrange(from as int, from as int) =~= Seq::<u8>::empty());
    while i < bytes.len() && 48 <= bytes[i] && bytes[i] <= 57
        invariant
            from <= i <= bytes@.len(),
            digits_end(bytes@, from as int) == digits_end(bytes@, i as int),
            !overflow ==> value == decimal_value(bytes@.subrange(from as int, i as int)),
            overflow ==> decimal_value(bytes@.subrange(from as int, i as int)) > u64::MAX,
        decreases bytes@.len() - i,
    {
        let d: u64 = (bytes[i] - 48) as u64;
        proof {
            lemma_decimal_value_step(bytes@, from as int, i as int);
        }
        if !overflow {
            if value > (u64::MAX - d) / 10 {
                overflow = true;
            } else {
                value = value * 10 + d;
            }
        }
        i += 1;
    }
    if overflow {
        (i, None)
    } else {
        (i, Some(value))
    }
}

/// Whether `hay` from position `at` to its end equals `needle`.
fn tail_equals(hay: &[u8], at: usize, needle: &[u8]) -> (b: bool)
    requires
        at <= hay@.len(),
    ensures
        b == (hay@.subrange(at as int, hay@.len() as int) == needle@),
{
    if hay.len() - at != needle.len() {
        return false;
    }
    let mut i: usize = 0;
    while i < needle.len()
        invariant
            i <= needle.len(),
            at + needle.len() == hay.len(),
            forall|j: int| 0 <= j < i ==> hay@[at + j] == needle@[j],
        decreases needle.len() - i,
    {
        if hay[at + i] != needle[i] {
            assert(hay@.subrange(at as int, hay@.len() as int)[i as int] != needle@[i as int]);
            return false;
        }
        i += 1;
    }
    assert(hay@.subrange(at as int, hay@.len() as int) =~= needle@);
    true
}

/// Whether `ext` is one of the two extensions of snapshot files.
fn is_known_extension(ext: &[u8]) -> (b: bool)
    ensures
        b == (ext@ == snapshot_extension() || ext@ == metadata_extension()),
{
    let plain: [u8; 9] = [46, 115, 110, 97, 112, 115, 104, 111, 116];
    let meta: [u8; 18] = [46, 115, 110, 97, 112, 115, 104, 111, 116, 46, 109, 101, 116, 97, 100, 97, 116, 97];
    assert(plain@ =~= snapshot_extension());
    assert(meta@ =~= metadata_extension());
    let is_plain = tail_equals(ext, 0, plain.as_slice());
    let is_meta = tail_equals(ext, 0, meta.as_slice());
    assert(ext@.subrange(0, ext@.len() as int) =~= ext@);
    is_plain || is_meta
}

/// The `(index, term)` that the bytes of a file name denote.
fn parse_name_bytes(name: &[u8], ext: &[u8]) -> (r: Option<(u64, u64)>)
    ensures
        r == parsed_snapshot_name(name@, ext@),
{
    if name.len() < 5 {
        return None;
    }
    if !(name[0] == 114 && name[1] == 97 && name[2] == 102 && name[3] == 116 && name[4] == 45) {
        assert(name@.subrange(0, 5)[0] == name@[0]);
        assert(name@.subrange(0, 5)[1] == name@[1]);
        assert(name@.subrange(0, 5)[2] == name@[2]);
        assert(name@.subrange(0, 5)[3] == name@[3]);
        assert(name@.subrange(0, 5)[4] == name@[4]);
        return None;
    }
    assert(name@.subrange(0, 5) =~= raft_prefix());
    let (index_end, index) = scan_number(name, 5);
    if index_end == 5 || index_end >= name.len() || name[index_end] != 45 {
        return None;
    }
    let (term_end, term) = scan_number(name, index_end + 1);
    if term_end == index_end + 1 {
        return None;
    }
    if !tail_equals(name, term_end, ext) {
        return None;
    }
    if !is_known_extension(ext) {
        return None;
    }
    match (index, term) {
        (Some(i), Some(t)) => Some((i, t)),
        _ => None,
    }
}

impl Snapshot {
    /// The metadata of a replica that has no snapshot yet.
    pub fn new(snapshot_dir: String) -> (r: Self)
        ensures
            r@ == (SnapshotView {
                last_included_index: 0,
                last_included_term: 0,
                configuration: None,
                snapshot_dir: snapshot_dir@,
            }),
    {
        Snapshot {
            last_included_index: 0,
            last_included_term: 0,
            configuration: None,
            snapshot_dir,
        }
    }

    /// Records a snapshot just taken and returns the path of the metadata sidecar
    /// that is to be written for it.
    pub fn take_snapshot_metadata(
        &mut self,
        last_included_index: u64,
        last_included_term: u64,
        configuration: Option<Config>,
    ) -> (path: String)
        ensures
            final(self)@ == (SnapshotView {
                last_included_index,
                last_included_term,
                configuration: configuration.deep_view(),
                snapshot_dir: old(self)@.snapshot_dir,
            }),
            path@ == snapshot_path(
                old(self)@.snapshot_dir,
                last_included_index,
                last_included_term,
                ".snapshot.metadata"@,
            ),
    {
        self.last_included_index = last_included_index;
        self.last_included_term = last_included_term;
        self.configuration = configuration;
        self.gen_snapshot_metadata_filepath(last_included_index, last_included_term)
    }

    /// Takes over the content of the latest metadata sidecar; keeps everything where
    /// there is none.
    pub fn reload_metadata(&mut self, loaded: Option<SnapshotMetadata>)
        ensures
            final(self)@ == reloaded(old(self)@, loaded),
    {
        match loaded {
            Some(m) => {
                self.last_included_index = m.last_included_index;
                self.last_included_term = m.last_included_term;
                self.configuration = m.configuration;
            },
            None => {},
        }
    }

    /// The `(index, term)` that `filename` denotes as a snapshot file with the
    /// extension `expected_extension`; `None` where it is no such name.
    pub fn parse_snapshot_filename(filename: &str, expected_extension: &str) -> (r: Option<(u64, u64)>)
        ensures
            r == parsed_snapshot_name(encode_utf8(filename@), encode_utf8(expected_extension@)),
    {
        parse_name_bytes(filename.as_bytes(), expected_extension.as_bytes())
    }

    /// The path of the first directory entry that denotes the latest snapshot with
    /// the given extension, by index and then by term; `None` where no entry
    /// denotes a snapshot.
    pub fn latest_file_with_pattern(
        &self,
        dir_entries: &Vec<SnapshotDirEntry>,
        extension_suffix: &str,
    ) -> (r: Option<String>)
        ensures
            match r {
                Some(path) => exists|p: int|
                    is_latest(entry_names(dir_entries@), encode_utf8(extension_suffix@), p)
                        && path@ == (#[trigger] dir_entries@[p]).path@,
                None => forall|j: int|
                    0 <= j < dir_entries.len() ==> candidate_key(
                        #[trigger] entry_names(dir_entries@)[j],
                        encode_utf8(extension_suffix@),
                    ) is None,
            },
    {
        let ghost names = entry_names(dir_entries@);
        let ghost ext = encode_utf8(extension_suffix@);
        let mut latest: (u64, u64) = (0, 0);
        let mut found: Option<usize> = None;
        let mut i: usize = 0;
        while i < dir_entries.len()
            invariant
                i <= dir_entries.len(),
                names == entry_names(dir_entries@),
                ext == encode_utf8(extension_suffix@),
                match found {
                    Some(p) => {
                        &&& p < i
                        &&& candidate_key(names[p as int], ext) == Some(latest)
                        &&& forall|j: int|
                            0 <= j < i && candidate_key(#[trigger] names[j], ext) is Some
                                ==> !key_less(latest, candidate_key(names[j], ext)->0)
                        &&& forall|j: int|
                            0 <= j < p && candidate_key(#[trigger] names[j], ext) is Some
                                ==> key_less(candidate_key(names[j], ext)->0, latest)
                    },
                    None => forall|j: int|
                        0 <= j < i ==> candidate_key(#[trigger] names[j], ext) is None,
                },
            decreases dir_entries.len() - i,
        {
            assert(names[i as int] == dir_entries@[i as int].file_name@);
            match Self::parse_snapshot_filename(
                dir_entries[i].file_name.as_str(),
                extension_suffix,
            ) {
                Some(key) => {
                    if found.is_none() || key.0 > latest.0 || (key.0 == latest.0 && key.1
                        > latest.1) {
                        latest = key;
                        found = Some(i);
                    }
                },
                None => {},
            }
            i += 1;
        }
        match found {
            Some(p) => {
                assert(is_latest(names, ext, p as int));
                Some(dir_entries[p].path.clone())
            },
            None => None,
        }
    }

    /// The path of the latest state-machine snapshot among `dir_entries`.
    pub fn latest_snapshot_filepath(&mut self, dir_entries: &Vec<SnapshotDirEntry>) -> (r: Option<
        String,
    >)
        ensures
            final(self)@ == old(self)@,
            match r {
                Some(path) => exists|p: int|
                    is_latest(entry_names(dir_entries@), encode_utf8(".snapshot"@), p) && path@ == (
                    #[trigger] dir_entries@[p]).path@,
                None => forall|j: int|
                    0 <= j < dir_entries.len() ==> candidate_key(
                        #[trigger] entry_names(dir_entries@)[j],
                        encode_utf8(".snapshot"@),
                    ) is None,
            },
    {
        self.latest_file_with_pattern(dir_entries, ".snapshot")
    }

    /// The path of the latest metadata sidecar among `dir_entries`.
    pub fn latest_metadata_filepath(&mut self, dir_entries: &Vec<SnapshotDirEntry>) -> (r: Option<
        String,
    >)
        ensures
            final(self)@ == old(self)@,
            match r {
                Some(path) => exists|p: int|
                    is_latest(entry_names(dir_entries@), encode_utf8(".snapshot.metadata"@), p)
                        && path@ == (#[trigger] dir_entries@[p]).path@,
                None => forall|j: int|
                    0 <= j < dir_entries.len() ==> candidate_key(
                        #[trigger] entry_names(dir_entries@)[j],
                        encode_utf8(".snapshot.metadata"@),
                    ) is None,
            },
    {
        self.latest_file_with_pattern(dir_entries, ".snapshot.metadata")
    }

    /// The path `<snapshot_dir>/raft-<index>-<term><suffix>`.
    fn gen_path(&self, last_included_index: u64, last_included_term: u64, suffix: &str) -> (r: String)
        ensures
            r@ == snapshot_path(self@.snapshot_dir, last_included_index, last_included_term, suffix@),
    {
        let mut path = self.snapshot_dir.clone();
        path.append("/raft-");
        push_decimal(&mut path, last_included_index);
        path.append("-");
        push_decimal(&mut path, last_included_term);
        path.append(suffix);
        path
    }

    /// The path of the state-machine snapshot at `(last_included_index, last_included_term)`.
    pub fn gen_snapshot_filepath(&self, last_included_index: u64, last_included_term: u64) -> (r:
        String)
        ensures
            r@ == snapshot_path(
                self@.snapshot_dir,
                last_included_index,
                last_included_term,
                ".snapshot"@,
            ),
    {
        self.gen_path(last_included_index, last_included_term, ".snapshot")
    }

    /// The path of the metadata sidecar at `(last_included_index, last_included_term)`.
    pub fn gen_snapshot_metadata_filepath(
        &self,
        last_included_index: u64,
        last_included_term: u64,
    ) -> (r: String)
        ensures
            r@ == snapshot_path(
                self@.snapshot_dir,
                last_included_index,
                last_included_term,
                ".snapshot.metadata"@,
            ),
    {
        self.gen_path(last_included_index, last_included_term, ".snapshot.metadata")
    }

    /// The path under which a state-machine snapshot is kept while it is received.
    pub fn gen_tmp_snapshot_filepath(&self, last_included_index: u64, last_included_term: u64) -> (r:
        String)
        ensures
            r@ == snapshot_path(
                self@.snapshot_dir,
                last_included_index,
                last_included_term,
                ".snapshot.tmp"@,
            ),
    {
        self.gen_path(last_included_index, last_included_term, ".snapshot.tmp")
    }

    /// The path under which a metadata sidecar is kept while it is received.
    pub fn gen_tmp_snapshot_metadata_filepath(
        &self,
        last_included_index: u64,
        last_included_term: u64,
    ) -> (r: String)
        ensures
            r@ == snapshot_path(
                self@.snapshot_dir,
                last_included_index,
                last_included_term,
                ".snapshot.metadata.tmp"@,
            ),
    {
        self.gen_path(last_included_index, last_included_term, ".snapshot.metadata.tmp")
    }
}

} // verus!
