//! The replicated log of one replica, held in memory.
//!
//! The log keeps the entries that follow the latest snapshot. Its first entry has
//! the index `start_index`, and the entries that follow have consecutive indices.
//! Queries below `start_index` are answered with the virtual entry `(0, 0)`.
use vstd::prelude::*;
use vstd::string::StringExecFns;
use crate::raft::config::{decoded_config, Config};
use crate::raft::proto::{
    clone_entries, entry_type_number, virtual_entry, EntryType, LogEntry, LogEntryView,
    ENTRY_TYPE_CONFIGURATION, ENTRY_TYPE_NOOP,
};

verus! {

/// Kind and payload of an entry that a leader is about to append.
pub type LogEntryData = (EntryType, Vec<u8>);

/// The log of a replica.
#[derive(Debug)]
pub struct Log {
    entries: Vec<LogEntry>,
    start_index: u64,
    metadata_dir: String,
    zero: LogEntry,
}

/// What is kept of a log on disk, as found when it is loaded.
#[derive(Debug)]
pub enum StoredLog {
    /// No log file exists.
    Absent,
    /// A log file exists but could not be read.
    Unreadable,
    /// The entries and the start index that the file holds.
    Content { entries: Vec<LogEntry>, start_index: u64 },
}

/// Mathematical value of a `Log`.
pub struct LogView {
    pub entries: Seq<LogEntryView>,
    pub start_index: u64,
    pub metadata_dir: Seq<char>,
}

/// The entries that `append_data` makes of `items` in term `term`, the first at index `first`.
pub open spec fn entries_of_data(first: int, term: u64, items: Seq<(EntryType, Seq<u8>)>) -> Seq<
    LogEntryView,
> {
    Seq::new(
        items.len(),
        |i: int|
            LogEntryView {
                index: (first + i) as u64,
                term: term,
                entry_type: entry_type_number(items[i].0),
                data: items[i].1,
            },
    )
}

/// Whether `entries` carry consecutive indices that begin at `first`.
pub open spec fn consecutive_from(entries: Seq<LogEntryView>, first: int) -> bool {
    forall|i: int| 0 <= i < entries.len() ==> (#[trigger] entries[i]).index == first + i
}

impl LogView {
    /// The indices of the entries are consecutive, begin at `start_index`, and the
    /// index after the last one still fits a `u64`.
    pub open spec fn wf(self) -> bool {
        &&& self.start_index >= 1
        &&& self.start_index + self.entries.len() <= u64::MAX
        &&& consecutive_from(self.entries, self.start_index as int)
    }

    /// The index that the next appended entry gets.
    pub open spec fn next_index(self) -> int {
        self.start_index + self.entries.len()
    }

    /// The entry at `index`: the virtual entry below `start_index`, none beyond the end.
    pub open spec fn entry(self, index: u64) -> Option<LogEntryView> {
        if index < self.start_index {
            Some(virtual_entry())
        } else if index - self.start_index < self.entries.len() {
            Some(self.entries[index - self.start_index])
        } else {
            None
        }
    }

    /// The index of the last entry, or `snapshot_last` where the log holds none.
    pub open spec fn last_index(self, snapshot_last: u64) -> u64 {
        if self.entries.len() == 0 {
            snapshot_last
        } else {
            self.entries.last().index
        }
    }

    /// The term of the last entry, or `snapshot_last_term` where the log holds none.
    pub open spec fn last_term(self, snapshot_last_term: u64) -> u64 {
        if self.entries.len() == 0 {
            snapshot_last_term
        } else {
            self.entries.last().term
        }
    }

    /// The term of the entry at `prev_index`, as a leader states it in `AppendEntries`.
    pub open spec fn prev_log_term(self, prev_index: u64, snap_last: u64, snap_last_term: u64) -> u64 {
        if prev_index == 0 {
            0
        } else if prev_index == snap_last {
            snap_last_term
        } else {
            match self.entry(prev_index) {
                Some(e) => e.term,
                None => 0,
            }
        }
    }

    /// The entries from `from_index` to the end; none where `from_index` lies outside the log.
    pub open spec fn pack(self, from_index: u64) -> Seq<LogEntryView> {
        if self.start_index <= from_index && from_index - self.start_index < self.entries.len() {
            self.entries.subrange(from_index - self.start_index, self.entries.len() as int)
        } else {
            Seq::empty()
        }
    }

    /// The log without the entries whose index exceeds `last_kept`.
    pub open spec fn truncate_suffix(self, last_kept: u64) -> LogView {
        if last_kept < self.start_index {
            LogView { entries: Seq::empty(), ..self }
        } else if last_kept - self.start_index + 1 < self.entries.len() {
            LogView { entries: self.entries.take(last_kept - self.start_index + 1), ..self }
        } else {
            self
        }
    }

    /// The log without the entries whose index is at most `upto`, starting at `upto + 1`;
    /// unchanged where `upto` lies below `start_index`.
    pub open spec fn truncate_prefix(self, upto: u64) -> LogView {
        if upto < self.start_index {
            self
        } else if upto - self.start_index + 1 >= self.entries.len() {
            LogView { entries: Seq::empty(), start_index: (upto + 1) as u64, ..self }
        } else {
            LogView {
                entries: self.entries.skip(upto - self.start_index + 1),
                start_index: (upto + 1) as u64,
                ..self
            }
        }
    }

    /// How many entries held in memory have an index of at most `commit_index`.
    pub open spec fn committed_len(self, commit_index: u64) -> int {
        if commit_index < self.start_index {
            0
        } else if commit_index - self.start_index + 1 < self.entries.len() {
            commit_index - self.start_index + 1
        } else {
            self.entries.len() as int
        }
    }

    /// Position of the last entry of kind `Configuration` among the first `n` entries, or -1.
    pub open spec fn last_configuration_position(self, n: int) -> int
        decreases n,
    {
        if n <= 0 {
            -1
        } else if self.entries[n - 1].entry_type == ENTRY_TYPE_CONFIGURATION {
            n - 1
        } else {
            self.last_configuration_position(n - 1)
        }
    }

    /// The payload of the most recent entry of kind `Configuration`, if there is one.
    pub open spec fn last_configuration_data(self) -> Option<Seq<u8>> {
        let p = self.last_configuration_position(self.entries.len() as int);
        if p < 0 {
            None
        } else {
            Some(self.entries[p].data)
        }
    }

    /// Whether `entries` can be appended: their indices continue the log and still fit.
    pub open spec fn accepts(self, entries: Seq<LogEntryView>) -> bool {
        &&& consecutive_from(entries, self.next_index())
        &&& self.next_index() + entries.len() <= u64::MAX
    }
}

/// A position returned by `last_configuration_position` holds an entry of kind
/// `Configuration`, and no later position below `n` does.
pub proof fn lemma_last_configuration_position(log: LogView, n: int)
    requires
        0 <= n <= log.entries.len(),
    ensures
        -1 <= log.last_configuration_position(n) < n,
        log.last_configuration_position(n) >= 0 ==> log.entries[log.last_configuration_position(
            n,
        )].entry_type == ENTRY_TYPE_CONFIGURATION,
        forall|k: int|
            log.last_configuration_position(n) < k < n ==> (#[trigger] log.entries[k]).entry_type
                != ENTRY_TYPE_CONFIGURATION,
    decreases n,
{
    if n > 0 && log.entries[n - 1].entry_type != ENTRY_TYPE_CONFIGURATION {
        lemma_last_configuration_position(log, n - 1);
    }
}

impl View for Log {
    type V = LogView;

    closed spec fn view(&self) -> LogView {
        LogView {
            entries: self.entries.deep_view(),
            start_index: self.start_index,
            metadata_dir: self.metadata_dir@,
        }
    }
}

impl Log {
    /// The stored virtual entry is `(0, 0)` with an empty payload.
    pub closed spec fn zero_ok(&self) -> bool {
        self.zero@ == virtual_entry()
    }

    /// Well-formedness: consecutive indices from `start_index`, and a proper virtual entry.
    pub open spec fn wf(&self) -> bool {
        self@.wf() && self.zero_ok()
    }

    /// An empty log whose first entry will have the index `start_index`.
    pub fn new(start_index: u64, metadata_dir: String) -> (r: Self)
        requires
            1 <= start_index < u64::MAX,
        ensures
            r.wf(),
            r@.entries.len() == 0,
            r@.start_index == start_index,
            r@.metadata_dir == metadata_dir@,
    {
        let r = Log {
            entries: Vec::new(),
            start_index,
            metadata_dir,
            zero: LogEntry { index: 0, term: 0, entry_type: ENTRY_TYPE_NOOP, data: Vec::new() },
        };
        assert(r.zero@.data =~= Seq::empty());
        r
    }

    /// Appends one entry of term `term` for each item, with the indices that follow
    /// the last one.
    pub fn append_data(&mut self, term: u64, entry_data_list: Vec<LogEntryData>)
        requires
            old(self).wf(),
            old(self)@.next_index() + entry_data_list.len() <= u64::MAX,
        ensures
            final(self).wf(),
            final(self)@ == (LogView {
                entries: old(self)@.entries + entries_of_data(
                    old(self)@.next_index(),
                    term,
                    entry_data_list.deep_view(),
                ),
                ..old(self)@
            }),
    {
        let ghost items = entry_data_list.deep_view();
        let ghost first = self@.next_index();
        let ghost before = self@.entries;
        let mut next: u64 = self.start_index + self.entries.len() as u64;
        let mut list = entry_data_list;
        let n: usize = list.len();
        let mut i: usize = 0;
        while i < n
            invariant
                i <= n,
                n == list.len(),
                n == items.len(),
                first + n <= u64::MAX,
                next == first + i,
                self.zero_ok(),
                self.start_index == old(self).start_index,
                self.metadata_dir == old(self).metadata_dir,
                self.entries.len() == before.len() + i,
                forall|j: int| 0 <= j < before.len() ==> self.entries[j]@ == before[j],
                forall|j: int|
                    0 <= j < i ==> self.entries[before.len() + j]@ == entries_of_data(
                        first,
                        term,
                        items,
                    )[j],
                forall|j: int| i <= j < n ==> (#[trigger] list[j]).0 == items[j].0 && list[j].1@ == items[j].1,
            decreases n - i,
        {
            let mut data: Vec<u8> = Vec::new();
            let kind = list[i].0;
            let ghost rest = list@;
            std::mem::swap(&mut data, &mut list[i].1);
            assert(forall|j: int| i < j < n ==> list[j] == rest[j]);
            self.entries.push(LogEntry { index: next, term, entry_type: kind.to_i32(), data });
            next = next + 1;
            i += 1;
        }
        assert(self@.entries =~= before + entries_of_data(first, term, items));
    }

    /// Whether `entries` can be appended: their indices continue the log and still fit.
    pub fn accepts(&self, entries: &Vec<LogEntry>) -> (b: bool)
        requires
            self.wf(),
        ensures
            b == self@.accepts(entries.deep_view()),
    {
        let next: u64 = self.start_index + self.entries.len() as u64;
        if entries.len() as u64 > u64::MAX - next {
            return false;
        }
        let mut i: usize = 0;
        while i < entries.len()
            invariant
                i <= entries.len(),
                next == self@.next_index(),
                next + entries.len() <= u64::MAX,
                forall|j: int| 0 <= j < i ==> (#[trigger] entries.deep_view()[j]).index == next + j,
            decreases entries.len() - i,
        {
            if entries[i].index != next + i as u64 {
                assert(entries.deep_view()[i as int].index != next + i);
                return false;
            }
            i += 1;
        }
        true
    }

    /// Appends entries that arrive with their indices and terms assigned.
    pub fn append_entries(&mut self, entries_to_append: Vec<LogEntry>)
        requires
            old(self).wf(),
            old(self)@.accepts(entries_to_append.deep_view()),
        ensures
            final(self).wf(),
            final(self)@ == (LogView {
                entries: old(self)@.entries + entries_to_append.deep_view(),
                ..old(self)@
            }),
    {
        let ghost before = self@.entries;
        let ghost added = entries_to_append.deep_view();
        let mut tail = entries_to_append;
        self.entries.append(&mut tail);
        assert(self@.entries =~= before + added);
    }

    /// Empties the log and lets it start at `start_index`.
    pub fn restart(&mut self, start_index: u64)
        requires
            old(self).wf(),
            1 <= start_index < u64::MAX,
        ensures
            final(self).wf(),
            final(self)@ == (LogView { entries: Seq::empty(), start_index, ..old(self)@ }),
    {
        self.entries.clear();
        self.start_index = start_index;
        assert(self@.entries =~= Seq::empty());
    }

    /// The index that the next appended entry gets.
    pub fn next_index(&self) -> (r: u64)
        requires
            self.wf(),
        ensures
            r == self@.next_index(),
    {
        self.start_index + self.entries.len() as u64
    }

    /// The entries held in memory.
    pub fn entries(&self) -> (r: &Vec<LogEntry>)
        ensures
            r.deep_view() == self@.entries,
    {
        &self.entries
    }

    /// The index of the first entry that the log holds or will hold.
    pub fn start_index(&self) -> (r: u64)
        ensures
            r == self@.start_index,
    {
        self.start_index
    }

    /// The entry at `index`: the virtual entry below `start_index`, `None` beyond the end.
    pub fn entry(&self, index: u64) -> (r: Option<&LogEntry>)
        requires
            self.wf(),
        ensures
            r.deep_view() == self@.entry(index),
    {
        if index < self.start_index {
            return Some(&self.zero);
        }
        let offset: u64 = index - self.start_index;
        if offset < self.entries.len() as u64 {
            Some(&self.entries[offset as usize])
        } else {
            None
        }
    }

    /// A copy of the entries from `next_index` to the end.
    pub fn pack_entries(&self, next_index: u64) -> (r: Vec<LogEntry>)
        requires
            self.wf(),
        ensures
            r.deep_view() == self@.pack(next_index),
    {
        let mut out: Vec<LogEntry> = Vec::new();
        if next_index < self.start_index {
            assert(out.deep_view() =~= Seq::empty());
            return out;
        }
        let offset: u64 = next_index - self.start_index;
        if offset >= self.entries.len() as u64 {
            assert(out.deep_view() =~= Seq::empty());
            return out;
        }
        let skip: usize = offset as usize;
        let mut i: usize = skip;
        while i < self.entries.len()
            invariant
                skip <= i <= self.entries.len(),
                out.len() == i - skip,
                forall|j: int| 0 <= j < i - skip ==> out[j]@ == self.entries[skip + j]@,
            decreases self.entries.len() - i,
        {
            out.push(self.entries[i].clone());
            i += 1;
        }
        assert(out.deep_view() =~= self@.pack(next_index));
        out
    }

    /// The index of the last entry, or `last_included_index` where the log holds none.
    pub fn last_index(&self, last_included_index: u64) -> (r: u64)
        ensures
            r == self@.last_index(last_included_index),
    {
        let n: usize = self.entries.len();
        if n == 0 {
            last_included_index
        } else {
            self.entries[n - 1].index
        }
    }

    /// The term of the last entry, or `last_included_term` where the log holds none.
    pub fn last_term(&self, last_included_term: u64) -> (r: u64)
        ensures
            r == self@.last_term(last_included_term),
    {
        let n: usize = self.entries.len();
        if n == 0 {
            last_included_term
        } else {
            self.entries[n - 1].term
        }
    }

    /// The term that belongs to `prev_log_index` in an `AppendEntries` request: 0 for
    /// index 0, the snapshot's term for the snapshot's index, else the term in the log.
    pub fn prev_log_term(
        &self,
        prev_log_index: u64,
        last_included_index: u64,
        last_included_term: u64,
    ) -> (r: u64)
        requires
            self.wf(),
        ensures
            r == self@.prev_log_term(prev_log_index, last_included_index, last_included_term),
    {
        if prev_log_index == 0 {
            return 0;
        }
        if prev_log_index == last_included_index {
            return last_included_term;
        }
        match self.entry(prev_log_index) {
            Some(entry) => entry.term,
            None => 0,
        }
    }

    /// Drops the entries whose index exceeds `last_index_kept`.
    pub fn truncate_suffix(&mut self, last_index_kept: u64)
        requires
            old(self).wf(),
        ensures
            final(self).wf(),
            final(self)@ == old(self)@.truncate_suffix(last_index_kept),
    {
        let ghost before = self@;
        if last_index_kept < self.start_index {
            self.entries.clear();
            assert(self@.entries =~= Seq::empty());
        } else {
            let kept: u64 = last_index_kept - self.start_index + 1;
            if kept < self.entries.len() as u64 {
                self.entries.truncate(kept as usize);
                assert(self@.entries =~= before.entries.take(kept as int));
            } else {
                assert(self@.entries =~= before.entries);
            }
        }
    }

    /// Drops the entries whose index is at most `last_included_index_from_snapshot`
    /// and lets the log start after it; does nothing where that index lies below
    /// `start_index`.
    pub fn truncate_prefix(&mut self, last_included_index_from_snapshot: u64)
        requires
            old(self).wf(),
            last_included_index_from_snapshot < u64::MAX - 1,
        ensures
            final(self).wf(),
            final(self)@ == old(self)@.truncate_prefix(last_included_index_from_snapshot),
    {
        let ghost before = self@;
        let upto = last_included_index_from_snapshot;
        if upto < self.start_index {
            assert(self@.entries =~= before.entries);
            return ;
        }
        let dropped: u64 = upto - self.start_index + 1;
        if dropped >= self.entries.len() as u64 {
            self.entries.clear();
            self.start_index = upto + 1;
            assert(self@.entries =~= Seq::empty());
        } else {
            let tail = self.entries.split_off(dropped as usize);
            self.entries = tail;
            self.start_index = upto + 1;
            assert(self@.entries =~= before.entries.skip(dropped as int));
        }
    }

    /// How many entries held in memory have an index of at most `commit_index`.
    pub fn committed_entries_len(&self, commit_index: u64) -> (r: usize)
        requires
            self.wf(),
        ensures
            r == self@.committed_len(commit_index),
    {
        if commit_index < self.start_index {
            return 0;
        }
        let len_in_mem: u64 = commit_index - self.start_index + 1;
        if len_in_mem < self.entries.len() as u64 {
            len_in_mem as usize
        } else {
            self.entries.len()
        }
    }

    /// The payload of the most recent entry of kind `Configuration`, if there is one.
    pub fn last_configuration_data(&self) -> (r: Option<&Vec<u8>>)
        ensures
            r.deep_view() == self@.last_configuration_data(),
    {
        let mut n: usize = self.entries.len();
        while n > 0
            invariant
                n <= self.entries.len(),
                self@.last_configuration_position(self.entries.len() as int)
                    == self@.last_configuration_position(n as int),
            decreases n,
        {
            if self.entries[n - 1].entry_type == ENTRY_TYPE_CONFIGURATION {
                assert(self@.entries[n - 1].data == self.entries[n - 1].data@);
                assert(self.entries[n - 1].data.deep_view() =~= self.entries[n - 1].data@);
                return Some(&self.entries[n - 1].data);
            }
            n -= 1;
        }
        None
    }

    /// The configuration that the most recent entry of kind `Configuration` encodes;
    /// `None` where the log holds no such entry or its payload encodes no configuration.
    pub fn last_configuration(&self) -> (r: Option<Config>)
        ensures
            r.deep_view() == match self@.last_configuration_data() {
                Some(data) => decoded_config(data),
                None => None,
            },
    {
        match self.last_configuration_data() {
            Some(data) => {
                assert(data.deep_view() =~= data@);
                Config::from_data(data.as_slice())
            },
            None => None,
        }
    }

    /// The path of the log file below `metadata_dir`.
    pub fn gen_log_filepath(metadata_dir: &str) -> (r: String)
        ensures
            r@ == metadata_dir@ + "/raft.log"@,
    {
        let dir = String::from_str(metadata_dir);
        dir.concat("/raft.log")
    }

    /// Takes over what was found on disk: the content of a readable file where it is
    /// well formed, nothing where no file exists, and the empty log that starts at
    /// index 1 where the file is unreadable or its content is not well formed.
    pub fn reload(&mut self, stored: StoredLog)
        requires
            old(self).wf(),
        ensures
            final(self).wf(),
            final(self)@ == Self::reloaded(old(self)@, stored),
    {
        match stored {
            StoredLog::Absent => {},
            StoredLog::Unreadable => {
                self.entries = Vec::new();
                self.start_index = 1;
                assert(self@.entries =~= Seq::empty());
            },
            StoredLog::Content { entries, start_index } => {
                if Self::well_formed_content(&entries, start_index) {
                    self.entries = entries;
                    self.start_index = start_index;
                } else {
                    self.entries = Vec::new();
                    self.start_index = 1;
                    assert(self@.entries =~= Seq::empty());
                }
            },
        }
    }

    /// The log that `reload` leaves.
    pub open spec fn reloaded(log: LogView, stored: StoredLog) -> LogView {
        match stored {
            StoredLog::Absent => log,
            StoredLog::Unreadable => LogView { entries: Seq::empty(), start_index: 1, ..log },
            StoredLog::Content { entries, start_index } => {
                let loaded = LogView { entries: entries.deep_view(), start_index, ..log };
                if loaded.wf() {
                    loaded
                } else {
                    LogView { entries: Seq::empty(), start_index: 1, ..log }
                }
            },
        }
    }

    /// Whether `entries` with `start_index` make a well-formed log.
    fn well_formed_content(entries: &Vec<LogEntry>, start_index: u64) -> (b: bool)
        ensures
            b == (LogView {
                entries: entries.deep_view(),
                start_index,
                metadata_dir: Seq::empty(),
            }).wf(),
    {
        if start_index < 1 || entries.len() as u64 > u64::MAX - start_index {
            return false;
        }
        let mut i: usize = 0;
        while i < entries.len()
            invariant
                i <= entries.len(),
                start_index + entries.len() <= u64::MAX,
                forall|j: int|
                    0 <= j < i ==> (#[trigger] entries.deep_view()[j]).index == start_index + j,
            decreases entries.len() - i,
        {
            if entries[i].index != start_index + i as u64 {
                assert(entries.deep_view()[i as int].index != start_index + i);
                return false;
            }
            i += 1;
        }
        true
    }

    /// What is to be written to disk for this log: a copy of its entries, and its start index.
    pub fn dump(&self) -> (r: StoredLog)
        ensures
            r matches StoredLog::Content { entries, start_index } && entries.deep_view()
                == self@.entries && start_index == self@.start_index,
    {
        StoredLog::Content { entries: clone_entries(&self.entries), start_index: self.start_index }
    }
}

} // verus!
