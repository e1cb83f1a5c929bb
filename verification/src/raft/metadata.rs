//! The durable metadata of a replica: its current term and the vote it cast in it.
//!
//! `MetadataManager` is what the consensus engine updates and reads. Every change
//! is also queued as a `PersistCommand`; the caller forwards the queue to the task
//! that owns the file, whose decisions are those of `MetadataPersister`.
use vstd::prelude::*;
use vstd::string::StringExecFns;
use crate::raft::config::NONE_SERVER_ID;

verus! {

/// Current term and vote of a replica, and the directory they are kept in.
#[derive(Debug)]
pub struct Metadata {
    pub current_term: u64,
    pub voted_for: u64,
    pub metadata_dir: String,
}

/// Mathematical value of a `Metadata`.
pub struct MetadataView {
    pub current_term: u64,
    pub voted_for: u64,
    pub metadata_dir: Seq<char>,
}

impl View for Metadata {
    type V = MetadataView;

    open spec fn view(&self) -> MetadataView {
        MetadataView {
            current_term: self.current_term,
            voted_for: self.voted_for,
            metadata_dir: self.metadata_dir@,
        }
    }
}

impl Clone for Metadata {
    fn clone(&self) -> (r: Self)
        ensures
            r@ == self@,
    {
        Metadata {
            current_term: self.current_term,
            voted_for: self.voted_for,
            metadata_dir: self.metadata_dir.clone(),
        }
    }
}

impl Metadata {
    /// The metadata of a replica that has seen no term and cast no vote.
    pub fn new(dir: String) -> (r: Metadata)
        ensures
            r@ == (MetadataView { current_term: 0, voted_for: NONE_SERVER_ID, metadata_dir: dir@ }),
    {
        Metadata { current_term: 0, voted_for: NONE_SERVER_ID, metadata_dir: dir }
    }

    /// The path of the metadata file below `dir`.
    pub fn gen_metadata_filepath(dir: &str) -> (r: String)
        ensures
            r@ == dir@ + "/raft.metadata"@,
    {
        String::from_str(dir).concat("/raft.metadata")
    }

    /// The metadata to start from: what the file held, or fresh metadata where
    /// there was no file.
    pub fn load(dir: &str, found: Option<Metadata>) -> (r: Metadata)
        ensures
            r@ == match found {
                Some(m) => m@,
                None => MetadataView { current_term: 0, voted_for: NONE_SERVER_ID, metadata_dir: dir@ },
            },
    {
        match found {
            Some(m) => m,
            None => Metadata::new(String::from_str(dir)),
        }
    }
}

/// A message to the task that keeps the metadata file.
#[derive(Debug, Clone, Copy, PartialEq, Eq, Structural)]
pub enum PersistCommand {
    /// The current term rose to the given one, and the vote is forgotten.
    UpdateTerm(u64),
    /// The vote changed to the given server.
    UpdateVotedFor(u64),
    /// Everything sent so far must reach the disk now.
    Flush,
}

/// The metadata as the consensus engine sees it, and the commands not yet forwarded.
#[derive(Debug)]
pub struct MetadataManager {
    metadata_cache: Metadata,
    outbox: Vec<PersistCommand>,
}

/// Mathematical value of a `MetadataManager`.
pub struct MetadataManagerView {
    pub metadata: MetadataView,
    pub outbox: Seq<PersistCommand>,
}

impl View for MetadataManager {
    type V = MetadataManagerView;

    closed spec fn view(&self) -> MetadataManagerView {
        MetadataManagerView { metadata: self.metadata_cache@, outbox: self.outbox@ }
    }
}

impl MetadataManagerView {
    /// The manager after the term `term` was seen: where it is above the current
    /// term it becomes the current term and the vote is forgotten; a term that is
    /// not higher changes nothing, so the term never falls.
    pub open spec fn with_term(self, term: u64) -> MetadataManagerView {
        if term > self.metadata.current_term {
            MetadataManagerView {
                metadata: MetadataView {
                    current_term: term,
                    voted_for: NONE_SERVER_ID,
                    ..self.metadata
                },
                outbox: self.outbox.push(PersistCommand::UpdateTerm(term)),
            }
        } else {
            self
        }
    }

    /// The manager after the vote was set to `voted_for`.
    pub open spec fn with_vote(self, voted_for: u64) -> MetadataManagerView {
        if self.metadata.voted_for == voted_for {
            self
        } else {
            MetadataManagerView {
                metadata: MetadataView { voted_for, ..self.metadata },
                outbox: self.outbox.push(PersistCommand::UpdateVotedFor(voted_for)),
            }
        }
    }

    /// The manager after a flush was requested.
    pub open spec fn synced(self) -> MetadataManagerView {
        MetadataManagerView { outbox: self.outbox.push(PersistCommand::Flush), ..self }
    }
}

impl MetadataManager {
    /// A manager that starts from `initial_metadata` with nothing queued.
    pub fn new(initial_metadata: Metadata) -> (r: Self)
        ensures
            r@.metadata == initial_metadata@,
            r@.outbox.len() == 0,
    {
        MetadataManager { metadata_cache: initial_metadata, outbox: Vec::new() }
    }

    /// Raises the current term to `current_term` and forgets the vote, and queues
    /// the change; does nothing unless `current_term` is above the current term.
    pub fn update_current_term(&mut self, current_term: u64)
        ensures
            final(self)@ == old(self)@.with_term(current_term),
    {
        if current_term <= self.metadata_cache.current_term {
            return ;
        }
        self.metadata_cache.current_term = current_term;
        self.metadata_cache.voted_for = NONE_SERVER_ID;
        self.outbox.push(PersistCommand::UpdateTerm(current_term));
    }

    /// Sets the vote; queues the change unless the vote is the same.
    pub fn update_voted_for(&mut self, voted_for: u64)
        ensures
            final(self)@ == old(self)@.with_vote(voted_for),
    {
        if self.metadata_cache.voted_for == voted_for {
            return ;
        }
        self.metadata_cache.voted_for = voted_for;
        self.outbox.push(PersistCommand::UpdateVotedFor(voted_for));
    }

    /// Queues the request that everything queued before reaches the disk.
    pub fn sync(&mut self)
        ensures
            final(self)@ == old(self)@.synced(),
    {
        self.outbox.push(PersistCommand::Flush);
    }

    /// A copy of the metadata.
    pub fn get(&self) -> (r: Metadata)
        ensures
            r@ == self@.metadata,
    {
        self.metadata_cache.clone()
    }

    /// The current term.
    pub fn current_term(&self) -> (r: u64)
        ensures
            r == self@.metadata.current_term,
    {
        self.metadata_cache.current_term
    }

    /// The server voted for in the current term, or `NONE_SERVER_ID`.
    pub fn voted_for(&self) -> (r: u64)
        ensures
            r == self@.metadata.voted_for,
    {
        self.metadata_cache.voted_for
    }

    /// Hands out the queued commands, oldest first, and empties the queue.
    pub fn take_commands(&mut self) -> (r: Vec<PersistCommand>)
        ensures
            r@ == old(self)@.outbox,
            final(self)@ == (MetadataManagerView { outbox: Seq::empty(), ..old(self)@ }),
    {
        let mut out: Vec<PersistCommand> = Vec::new();
        std::mem::swap(&mut out, &mut self.outbox);
        assert(self.outbox@ =~= Seq::empty());
        out
    }
}

/// State of the task that keeps the metadata file: the latest metadata it was
/// told of, and whether the file lags behind it.
#[derive(Debug)]
pub struct MetadataPersister {
    state: Metadata,
    dirty: bool,
}

/// Mathematical value of a `MetadataPersister`.
pub struct MetadataPersisterView {
    pub state: MetadataView,
    pub dirty: bool,
}

impl View for MetadataPersister {
    type V = MetadataPersisterView;

    closed spec fn view(&self) -> MetadataPersisterView {
        MetadataPersisterView { state: self.state@, dirty: self.dirty }
    }
}

impl MetadataPersisterView {
    /// The state after `command` was received.
    pub open spec fn after(self, command: PersistCommand) -> MetadataPersisterView {
        match command {
            PersistCommand::UpdateTerm(term) => if term > self.state.current_term {
                MetadataPersisterView {
                    state: MetadataView {
                        current_term: term,
                        voted_for: NONE_SERVER_ID,
                        ..self.state
                    },
                    dirty: true,
                }
            } else {
                self
            },
            PersistCommand::UpdateVotedFor(id) => if self.state.voted_for != id {
                MetadataPersisterView {
                    state: MetadataView { voted_for: id, ..self.state },
                    dirty: true,
                }
            } else {
                self
            },
            PersistCommand::Flush => self,
        }
    }
}

impl MetadataPersister {
    /// A task state whose file holds `initial`.
    pub fn new(initial: Metadata) -> (r: Self)
        ensures
            r@ == (MetadataPersisterView { state: initial@, dirty: false }),
    {
        MetadataPersister { state: initial, dirty: false }
    }

    /// Takes in one command. Returns the metadata to write to the file now: some
    /// exactly on a `Flush` while the file lags behind.
    pub fn handle(&mut self, command: PersistCommand) -> (write: Option<Metadata>)
        ensures
            final(self)@ == old(self)@.after(command),
            write is Some <==> command == PersistCommand::Flush && old(self)@.dirty,
            write matches Some(m) ==> m@ == old(self)@.state,
    {
        match command {
            PersistCommand::UpdateTerm(term) => {
                if term > self.state.current_term {
                    self.state.current_term = term;
                    self.state.voted_for = NONE_SERVER_ID;
                    self.dirty = true;
                }
                None
            },
            PersistCommand::UpdateVotedFor(id) => {
                if self.state.voted_for != id {
                    self.state.voted_for = id;
                    self.dirty = true;
                }
                None
            },
            PersistCommand::Flush => self.pending_write(),
        }
    }

    /// The metadata to write where the file lags behind: on a periodic tick, and
    /// before the task ends.
    pub fn pending_write(&self) -> (write: Option<Metadata>)
        ensures
            write is Some <==> self@.dirty,
            write matches Some(m) ==> m@ == self@.state,
    {
        if self.dirty {
            Some(self.state.clone())
        } else {
            None
        }
    }

    /// Records that the metadata handed out last reached the file.
    pub fn written(&mut self)
        ensures
            final(self)@ == (MetadataPersisterView { dirty: false, ..old(self)@ }),
    {
        self.dirty = false;
    }
}

} // verus!
