//! What holds of the role state machine, whatever happens to a replica.
//!
//! The theorems of this file speak of `ConsensusView::step`, which covers every
//! handler of `Consensus`: the invariant is kept; term, commit index and applied
//! index never fall; a vote stays for its term; committed entries are never
//! rewritten; and match indexes fall only where they are meant to.
use vstd::prelude::*;
use crate::raft::config::{decoded_config, encoded_config, ConfigView, NONE_SERVER_ID};
use crate::raft::consensus::State;
use crate::raft::log::{consecutive_from, LogView};
use crate::raft::model::{
    first_new, index_after, lemma_first_new_is_new, none_data, ConsensusView, EffectView, Event,
};
use crate::raft::peer::{
    count_at_least, first_with_id, has_peer, has_vote_quorum, in_servers, joins, leader_reset_map,
    lemma_count_at_least_monotone, lemma_first_with_id, lemma_quorum_median_is_majority,
    member_match_indexes, membership_map, quorum_median, vote_reset_map, PeerView,
};
use crate::raft::proto::{
    entry_kind, AppendEntriesRequestView, AppendEntriesResponse, EntryType, LogEntryView,
    RequestVoteResponse, ServerInfoView, ENTRY_TYPE_CONFIGURATION, ENTRY_TYPE_DATA,
};
use crate::raft::snapshot::SnapshotView;

verus! {

/// What the helpers of the model leave alone: identity, term and vote.
pub open spec fn same_term(pre: ConsensusView, post: ConsensusView) -> bool {
    &&& post.server_id == pre.server_id
    &&& post.metadata.metadata == pre.metadata.metadata
}

/// `post` lies ahead of `pre`: term, commit index and applied index are no lower,
/// and the vote is the same where it was cast and the term is the same.
pub open spec fn advanced(pre: ConsensusView, post: ConsensusView) -> bool {
    &&& post.server_id == pre.server_id
    &&& post.current_term() >= pre.current_term()
    &&& post.commit_index >= pre.commit_index
    &&& post.last_applied >= pre.last_applied
    &&& post.current_term() == pre.current_term() && pre.voted_for() != NONE_SERVER_ID
        ==> post.voted_for() == pre.voted_for()
}

/// The part of the invariant that does not speak of the commit index.
pub open spec fn sound(s: ConsensusView) -> bool {
    s.log.wf() && s.flags_consistent()
}

/// The entry that `log` holds at `index`, if it holds one there.
pub open spec fn held(log: LogView, index: u64) -> Option<LogEntryView> {
    if log.start_index <= index && index < log.next_index() {
        Some(log.entries[index - log.start_index])
    } else {
        None
    }
}

/// Every committed entry that the log of `pre` held is the same in the log of
/// `post`, unless a snapshot has taken its place there.
pub open spec fn committed_kept(pre: ConsensusView, post: ConsensusView) -> bool {
    forall|index: u64|
        index <= pre.commit_index && #[trigger] held(pre.log, index) is Some && index
            >= post.log.start_index ==> held(post.log, index) == held(pre.log, index)
}

/// `post` holds every entry of `pre` at its place, and maybe more after them.
pub open spec fn log_extended(pre: LogView, post: LogView) -> bool {
    &&& post.start_index == pre.start_index
    &&& post.entries.len() >= pre.entries.len()
    &&& forall|i: int| 0 <= i < pre.entries.len() ==> post.entries[i] == #[trigger] pre.entries[i]
}

/// A well-formed log stays well formed when a suffix is dropped.
pub proof fn lemma_truncate_suffix_wf(log: LogView, last_kept: u64)
    requires
        log.wf(),
    ensures
        log.truncate_suffix(last_kept).wf(),
        log.truncate_suffix(last_kept).start_index == log.start_index,
        log.truncate_suffix(last_kept).entries.len() <= log.entries.len(),
        last_kept + 1 >= log.start_index ==> log.truncate_suffix(last_kept).next_index() == if last_kept
            + 1 < log.next_index() {
            last_kept + 1
        } else {
            log.next_index()
        },
{
}

/// A well-formed log stays well formed when a prefix is dropped.
pub proof fn lemma_truncate_prefix_wf(log: LogView, upto: u64)
    requires
        log.wf(),
        upto < u64::MAX - 1,
    ensures
        log.truncate_prefix(upto).wf(),
        upto + 1 >= log.start_index ==> log.truncate_prefix(upto).start_index == upto + 1,
{
}

/// Dropping peers keeps the membership flags of those that stay.
proof fn lemma_filter_keeps_flags(s: ConsensusView, pred: spec_fn(PeerView) -> bool)
    requires
        s.flags_consistent(),
    ensures
        (ConsensusView { peers: s.peers.filter(pred), ..s }).flags_consistent(),
{
    let kept = s.peers.filter(pred);
    assert forall|i: int| 0 <= i < kept.len() implies (#[trigger] kept[i]).config_state
        == s.current_config.node_state(kept[i].id) by {
        assert(kept.contains(kept[i]));
        s.peers.lemma_filter_contains_rev(pred, kept[i]);
        let j = choose|j: int| 0 <= j < s.peers.len() && s.peers[j] == kept[i];
        assert(s.peers[j].config_state == s.current_config.node_state(s.peers[j].id));
    }
}

/// A configuration that takes effect leaves log, term and progress alone.
pub proof fn lemma_apply_configuration(s: ConsensusView, config: ConfigView, committed: bool)
    requires
        sound(s),
    ensures
        sound(s.apply_configuration(config, committed)),
        same_term(s, s.apply_configuration(config, committed)),
        s.apply_configuration(config, committed).log == s.log,
        s.apply_configuration(config, committed).commit_index == s.commit_index,
        s.apply_configuration(config, committed).last_applied == s.last_applied,
        s.apply_configuration(config, committed).snapshot == s.snapshot,
{
    if committed {
        let switched = s.with_config(config);
        assert(switched.flags_consistent());
        if config.is_stable() {
            lemma_filter_keeps_flags(switched, in_servers(config.new_servers));
        }
    } else {
        let joined = if config.is_joint() {
            ConsensusView { peers: s.peers + s.joining_peers(config), ..s }
        } else {
            s
        };
        assert(joined.with_config(config).flags_consistent());
    }
}

/// An entry put at the end of the log keeps the log well formed and leaves term,
/// progress and peers alone.
pub proof fn lemma_append_entry(s: ConsensusView, kind: EntryType, data: Seq<u8>)
    requires
        sound(s),
    ensures
        sound(s.append_entry(kind, data).0),
        same_term(s, s.append_entry(kind, data).0),
        s.append_entry(kind, data).0.commit_index == s.commit_index,
        s.append_entry(kind, data).0.last_applied == s.last_applied,
        s.append_entry(kind, data).0.snapshot == s.snapshot,
        s.append_entry(kind, data).0.peers == s.peers,
        s.append_entry(kind, data).0.state == s.state,
        log_extended(s.log, s.append_entry(kind, data).0.log),
{
    if s.state == State::Leader && s.log.next_index() < u64::MAX {
        assert(s.append_entry(kind, data).0.log.wf());
    }
}

/// An append by the leader keeps the log well formed and leaves term and progress alone.
pub proof fn lemma_replicate(s: ConsensusView, kind: EntryType, data: Seq<u8>)
    requires
        sound(s),
    ensures
        sound(s.replicate(kind, data).0),
        same_term(s, s.replicate(kind, data).0),
        s.replicate(kind, data).0.commit_index == s.commit_index,
        s.replicate(kind, data).0.last_applied == s.last_applied,
        s.replicate(kind, data).0.snapshot == s.snapshot,
        s.replicate(kind, data).0.log.start_index == s.log.start_index,
        s.replicate(kind, data).0.log.entries.len() >= s.log.entries.len(),
        forall|i: int|
            0 <= i < s.log.entries.len() ==> s.replicate(kind, data).0.log.entries[i]
                == #[trigger] s.log.entries[i],
{
    lemma_append_entry(s, kind, data);
    let (appended, done) = s.append_entry(kind, data);
    if done && kind == EntryType::Configuration {
        match decoded_config(data) {
            Some(config) => {
                lemma_apply_configuration(appended, config, false);
            },
            None => {},
        }
    }
}

/// The next step of a membership change keeps the log well formed and leaves term
/// and progress alone.
pub proof fn lemma_config_change(s: ConsensusView, target: Option<Seq<ServerInfoView>>)
    requires
        sound(s),
    ensures
        sound(s.config_change(target).0),
        same_term(s, s.config_change(target).0),
        s.config_change(target).0.commit_index == s.commit_index,
        s.config_change(target).0.last_applied == s.last_applied,
        s.config_change(target).0.snapshot == s.snapshot,
        s.config_change(target).0.log.start_index == s.log.start_index,
        s.config_change(target).0.log.entries.len() >= s.log.entries.len(),
        forall|i: int|
            0 <= i < s.log.entries.len() ==> s.config_change(target).0.log.entries[i]
                == #[trigger] s.log.entries[i],
{
    if s.state == State::Leader {
        match s.next_config(target) {
            Some(config) => {
                let data = encoded_config(config);
                lemma_append_entry(s, EntryType::Configuration, data);
                let appended = s.append_entry(EntryType::Configuration, data).0;
                lemma_apply_configuration(appended, config, false);
            },
            None => {},
        }
    }
}

/// A committed entry that takes effect keeps the log well formed, never shortens
/// it, and leaves term and progress alone.
pub proof fn lemma_apply_entry(s: ConsensusView, e: LogEntryView)
    requires
        sound(s),
    ensures
        sound(s.apply_entry(e)),
        same_term(s, s.apply_entry(e)),
        s.apply_entry(e).commit_index == s.commit_index,
        s.apply_entry(e).last_applied == s.last_applied,
        s.apply_entry(e).snapshot == s.snapshot,
        s.apply_entry(e).log.start_index == s.log.start_index,
        s.apply_entry(e).log.entries.len() >= s.log.entries.len(),
        forall|i: int|
            0 <= i < s.log.entries.len() ==> s.apply_entry(e).log.entries[i]
                == #[trigger] s.log.entries[i],
{
    match entry_kind(e.entry_type) {
        EntryType::Configuration => match decoded_config(e.data) {
            Some(config) => {
                lemma_apply_configuration(s, config, true);
                if config.is_joint() {
                    lemma_config_change(s.apply_configuration(config, true), None);
                }
            },
            None => {},
        },
        _ => {},
    }
}

/// Entries that take effect in order keep the log well formed, never shorten it,
/// leave the term alone, and move the applied index up, not beyond `to`.
pub proof fn lemma_apply_range(s: ConsensusView, from: u64, to: u64)
    requires
        sound(s),
    ensures
        sound(s.apply_range(from, to)),
        same_term(s, s.apply_range(from, to)),
        s.apply_range(from, to).commit_index == s.commit_index,
        s.apply_range(from, to).snapshot == s.snapshot,
        from < to ==> from <= s.apply_range(from, to).last_applied <= to
            || s.apply_range(from, to).last_applied == s.last_applied,
        from >= to ==> s.apply_range(from, to).last_applied == s.last_applied,
        from < to && to < s.log.next_index() ==> s.apply_range(from, to).last_applied == to,
        s.apply_range(from, to).log.start_index == s.log.start_index,
        s.apply_range(from, to).log.entries.len() >= s.log.entries.len(),
        forall|i: int|
            0 <= i < s.log.entries.len() ==> s.apply_range(from, to).log.entries[i]
                == #[trigger] s.log.entries[i],
    decreases to - from,
{
    if from < to {
        let index = (from + 1) as u64;
        match s.log.entry(index) {
            Some(e) => {
                lemma_apply_entry(s, e);
                let next = ConsensusView { last_applied: index, ..s.apply_entry(e) };
                assert(sound(next));
                lemma_apply_range(next, index, to);
            },
            None => {},
        }
    }
}

/// A rising commit index keeps the invariant.
pub proof fn lemma_advance_commit(s: ConsensusView, n: u64)
    requires
        s.inv(),
    ensures
        s.advance_commit(n).inv(),
        advanced(s, s.advance_commit(n)),
        same_term(s, s.advance_commit(n)),
        n > s.commit_index && n < s.log.next_index() ==> s.advance_commit(n).last_applied == n,
{
    if n > s.commit_index {
        lemma_apply_range(s, s.last_applied, n);
    }
}

/// Stepping down keeps the invariant and never lowers the term.
pub proof fn lemma_step_down(s: ConsensusView, new_term: u64)
    requires
        s.inv(),
    ensures
        s.step_down(new_term).inv(),
        advanced(s, s.step_down(new_term)),
        s.step_down(new_term).log == s.log,
        s.step_down(new_term).snapshot == s.snapshot,
        s.step_down(new_term).commit_index == s.commit_index,
        s.step_down(new_term).last_applied == s.last_applied,
{
}

/// Pending configurations that take effect leave log, term and progress alone.
pub proof fn lemma_apply_pending_configs(s: ConsensusView, entries: Seq<LogEntryView>, k: int)
    requires
        sound(s),
    ensures
        sound(s.apply_pending_configs(entries, k)),
        same_term(s, s.apply_pending_configs(entries, k)),
        s.apply_pending_configs(entries, k).log == s.log,
        s.apply_pending_configs(entries, k).commit_index == s.commit_index,
        s.apply_pending_configs(entries, k).last_applied == s.last_applied,
        s.apply_pending_configs(entries, k).snapshot == s.snapshot,
    decreases entries.len() - k,
{
    if 0 <= k < entries.len() {
        let next = if entries[k].entry_type == ENTRY_TYPE_CONFIGURATION {
            match decoded_config(entries[k].data) {
                Some(config) => {
                    lemma_apply_configuration(s, config, false);
                    s.apply_configuration(config, false)
                },
                None => s,
            }
        } else {
            s
        };
        lemma_apply_pending_configs(next, entries, k + 1);
    }
}

/// Entries taken in from a request keep the invariant and rewrite nothing committed.
pub proof fn lemma_accept_entries(s: ConsensusView, entries: Seq<LogEntryView>, prev_log_index: u64)
    requires
        s.inv(),
        consecutive_from(entries, prev_log_index + 1),
        s.accept_entries(entries) is Some,
    ensures
        s.accept_entries(entries)->0.inv(),
        advanced(s, s.accept_entries(entries)->0),
        same_term(s, s.accept_entries(entries)->0),
        s.accept_entries(entries)->0.commit_index == s.commit_index,
        s.accept_entries(entries)->0.last_applied == s.last_applied,
{
    let k = first_new(s.log, entries, 0);
    lemma_first_new_is_new(s.log, entries, 0);
    if k < entries.len() {
        let tail = entries.skip(k);
        let first = tail[0];
        assert(first == entries[k]);
        lemma_truncate_suffix_wf(s.log, (first.index - 1) as u64);
        let kept = s.log.truncate_suffix((first.index - 1) as u64);
        let log = LogView { entries: kept.entries + tail, ..kept };
        assert(kept.next_index() == first.index);
        assert forall|j: int| 0 <= j < tail.len() implies (#[trigger] tail[j]).index == first.index
            + j by {
            assert(tail[j] == entries[k + j]);
        }
        assert(log.wf());
        let installed = (ConsensusView { log, ..s }).emit(EffectView::PersistLog);
        assert(sound(installed));
        lemma_apply_pending_configs(installed, tail, 0);
    }
}

/// Whatever happens to a replica, the invariant is kept: the log stays well
/// formed, nothing is applied that is not committed, and the membership flags
/// stay those that the current configuration gives.
pub proof fn theorem_invariant_kept(s: ConsensusView, event: Event)
    requires
        s.inv(),
    ensures
        s.step(event).inv(),
{
    lemma_step(s, event);
}

/// Whatever happens to a replica, its current term, its commit index and its
/// applied index never fall.
pub proof fn theorem_monotonic(s: ConsensusView, event: Event)
    requires
        s.inv(),
    ensures
        s.step(event).current_term() >= s.current_term(),
        s.step(event).commit_index >= s.commit_index,
        s.step(event).last_applied >= s.last_applied,
{
    lemma_step(s, event);
}

/// Whatever happens to a replica, the vote it cast in a term stays its vote for
/// as long as the term lasts.
pub proof fn theorem_one_vote_per_term(s: ConsensusView, event: Event)
    requires
        s.inv(),
        s.voted_for() != NONE_SERVER_ID,
        s.step(event).current_term() == s.current_term(),
    ensures
        s.step(event).voted_for() == s.voted_for(),
{
    lemma_step(s, event);
}

/// Every event keeps the invariant and moves the state ahead.
pub proof fn lemma_step(s: ConsensusView, event: Event)
    requires
        s.inv(),
    ensures
        s.step(event).inv(),
        advanced(s, s.step(event)),
{
    match event {
        Event::AppendEntries(request) => {
            lemma_handle_append_entries(s, request);
        },
        Event::RequestVote(request) => {
            if !(request.term == 0 || request.term < s.current_term()) {
                lemma_step_down(s, request.term);
            }
        },
        Event::InstallSnapshotChunk { term, leader_id, data_type, offset } => {
            lemma_step_down(s, term);
        },
        Event::InstallSnapshotDone { snapshot, file } => {
            let index = snapshot.last_included_index;
            if s.takes_snapshot(snapshot) {
                lemma_truncate_prefix_wf(s.log, index);
                match snapshot.configuration {
                    Some(config) => {
                        assert(s.with_config(config).flags_consistent());
                    },
                    None => {},
                }
            }
            assert(s.finish_install(snapshot, file).flags_consistent());
        },
        Event::Propose(data) => {
            lemma_replicate(s, EntryType::Data, data);
        },
        Event::Replicate { kind, data } => {
            lemma_replicate(s, kind, data);
        },
        Event::SetConfiguration(target) => {
            lemma_config_change(s, Some(target));
        },
        Event::ElectionTimeout => {
            assert(s.handle_election_timeout().flags_consistent());
        },
        Event::HeartbeatTimeout => {},
        Event::SnapshotTimeout => {},
        Event::SnapshotWritten { index, term, config, file_exists } => {
            if s.snapshot_usable(index) {
                lemma_truncate_prefix_wf(s.log, index);
            }
        },
        Event::VoteResponse { peer_id, vote } => {
            if has_peer(s.peers, peer_id) {
                lemma_first_with_id(s.peers, peer_id);
            }
            match vote {
                Some(r) => {
                    lemma_step_down(s, r.term);
                },
                None => {},
            }
        },
        Event::ElectionConcluded => {
            lemma_become_leader(s);
        },
        Event::AppendResponse { peer_id, prev_log_index, sent, response } => {
            if has_peer(s.peers, peer_id) {
                lemma_first_with_id(s.peers, peer_id);
            }
            match response {
                Some(r) => {
                    lemma_step_down(s, r.term);
                },
                None => {},
            }
        },
        Event::SnapshotResponse { peer_id, done, response_term } => {
            if has_peer(s.peers, peer_id) {
                lemma_first_with_id(s.peers, peer_id);
            }
            match response_term {
                Some(term) => {
                    lemma_step_down(s, term);
                },
                None => {},
            }
        },
        Event::RoundEnded => {
            lemma_advance_commit(s, s.leader_commit_target());
        },
        Event::Shutdown => {},
        Event::EffectsTaken => {},
    }
}

/// A candidate that becomes leader keeps the invariant.
pub proof fn lemma_become_leader(s: ConsensusView)
    requires
        s.inv(),
    ensures
        s.become_leader().inv(),
        advanced(s, s.become_leader()),
{
    if s.state == State::Candidate {
        let next = index_after(s.last_log_index());
        let led = ConsensusView {
            state: State::Leader,
            leader_id: s.server_id,
            peers: s.peers.map_values(leader_reset_map(next)),
            ..s
        };
        assert(led.flags_consistent());
        lemma_replicate(led, EntryType::Noop, none_data());
    }
}

/// An `AppendEntries` request keeps the invariant and moves the state ahead.
pub proof fn lemma_handle_append_entries(s: ConsensusView, request: AppendEntriesRequestView)
    requires
        s.inv(),
    ensures
        s.handle_append_entries(request).0.inv(),
        advanced(s, s.handle_append_entries(request).0),
{
    if !(request.term == 0 || request.term < s.current_term()) {
        lemma_step_down(s, request.term);
        let following = s.follow(request.term, request.leader_id);
        assert(following.inv());
        assert(advanced(s, following));
        if consecutive_from(request.entries, request.prev_log_index + 1) && following.prev_matches(
            request,
        ) {
            match following.accept_entries(request.entries) {
                Some(accepted) => {
                    lemma_accept_entries(following, request.entries, request.prev_log_index);
                    lemma_advance_commit(
                        accepted,
                        accepted.follower_commit_target(request.leader_commit),
                    );
                },
                None => {},
            }
        }
    }
}

/// A log that only grew holds every entry that it held.
proof fn lemma_extended_keeps(pre: LogView, post: LogView)
    requires
        log_extended(pre, post),
    ensures
        forall|index: u64| #[trigger] held(pre, index) is Some ==> held(post, index) == held(pre, index),
{
}

/// A log that lost a prefix holds every entry that it held after the prefix.
proof fn lemma_truncate_prefix_keeps(log: LogView, upto: u64)
    requires
        log.wf(),
        upto < u64::MAX - 1,
    ensures
        forall|index: u64|
            #[trigger] held(log, index) is Some && index >= log.truncate_prefix(upto).start_index
                ==> held(log.truncate_prefix(upto), index) == held(log, index),
{
}

/// Entries taken in from a request leave every committed entry as it was.
proof fn lemma_accept_keeps_committed(s: ConsensusView, entries: Seq<LogEntryView>, prev_log_index: u64)
    requires
        s.inv(),
        consecutive_from(entries, prev_log_index + 1),
        s.accept_entries(entries) is Some,
    ensures
        committed_kept(s, s.accept_entries(entries)->0),
        s.accept_entries(entries)->0.log.start_index == s.log.start_index,
{
    let k = first_new(s.log, entries, 0);
    lemma_first_new_is_new(s.log, entries, 0);
    if k < entries.len() {
        let tail = entries.skip(k);
        let first = tail[0];
        assert(first == entries[k]);
        lemma_truncate_suffix_wf(s.log, (first.index - 1) as u64);
        let kept = s.log.truncate_suffix((first.index - 1) as u64);
        let log = LogView { entries: kept.entries + tail, ..kept };
        let installed = (ConsensusView { log, ..s }).emit(EffectView::PersistLog);
        assert(sound(installed)) by {
            assert(kept.next_index() == first.index);
            assert forall|j: int| 0 <= j < tail.len() implies (#[trigger] tail[j]).index
                == first.index + j by {
                assert(tail[j] == entries[k + j]);
            }
        }
        lemma_apply_pending_configs(installed, tail, 0);
        let post = s.accept_entries(entries)->0;
        assert(post.log == log);
        assert forall|index: u64|
            index <= s.commit_index && #[trigger] held(s.log, index) is Some && index
                >= post.log.start_index implies held(post.log, index) == held(s.log, index) by {
            assert(index < first.index);
            assert(log.entries[index - log.start_index] == kept.entries[index - log.start_index]);
        }
    }
}

/// Whatever happens to a replica, an entry of its log that is committed is never
/// rewritten: it stays as it is until a snapshot takes its place.
pub proof fn theorem_committed_entries_kept(s: ConsensusView, event: Event)
    requires
        s.inv(),
    ensures
        committed_kept(s, s.step(event)),
{
    let post = s.step(event);
    match event {
        Event::AppendEntries(request) => {
            if !(request.term == 0 || request.term < s.current_term()) {
                lemma_step_down(s, request.term);
                let following = s.follow(request.term, request.leader_id);
                assert(following.inv());
                assert(following.log == s.log);
                if consecutive_from(request.entries, request.prev_log_index + 1)
                    && following.prev_matches(request) {
                    match following.accept_entries(request.entries) {
                        Some(accepted) => {
                            lemma_accept_entries(following, request.entries, request.prev_log_index);
                            lemma_accept_keeps_committed(
                                following,
                                request.entries,
                                request.prev_log_index,
                            );
                            let n = accepted.follower_commit_target(request.leader_commit);
                            if n > accepted.commit_index {
                                lemma_apply_range(accepted, accepted.last_applied, n);
                            }
                            assert(log_extended(accepted.log, post.log));
                            lemma_extended_keeps(accepted.log, post.log);
                            assert forall|index: u64|
                                index <= s.commit_index && #[trigger] held(s.log, index) is Some
                                    && index >= post.log.start_index implies held(post.log, index)
                                == held(s.log, index) by {
                                assert(held(accepted.log, index) == held(s.log, index));
                            }
                        },
                        None => {},
                    }
                }
            }
        },
        Event::RequestVote(request) => {},
        Event::InstallSnapshotChunk { term, leader_id, data_type, offset } => {},
        Event::InstallSnapshotDone { snapshot, file } => {
            if s.takes_snapshot(snapshot) {
                lemma_truncate_prefix_keeps(s.log, snapshot.last_included_index);
            }
        },
        Event::Propose(data) => {
            lemma_replicate(s, EntryType::Data, data);
            lemma_extended_keeps(s.log, post.log);
        },
        Event::Replicate { kind, data } => {
            lemma_replicate(s, kind, data);
            lemma_extended_keeps(s.log, post.log);
        },
        Event::SetConfiguration(target) => {
            lemma_config_change(s, Some(target));
            lemma_extended_keeps(s.log, post.log);
        },
        Event::ElectionTimeout => {},
        Event::HeartbeatTimeout => {},
        Event::SnapshotTimeout => {},
        Event::SnapshotWritten { index, term, config, file_exists } => {
            if s.snapshot_usable(index) {
                lemma_truncate_prefix_keeps(s.log, index);
            }
        },
        Event::VoteResponse { peer_id, vote } => {},
        Event::ElectionConcluded => {
            if s.state == State::Candidate {
                let next = index_after(s.last_log_index());
                let led = ConsensusView {
                    state: State::Leader,
                    leader_id: s.server_id,
                    peers: s.peers.map_values(leader_reset_map(next)),
                    ..s
                };
                assert(led.flags_consistent());
                lemma_replicate(led, EntryType::Noop, none_data());
            }
            lemma_extended_keeps(s.log, post.log);
        },
        Event::AppendResponse { peer_id, prev_log_index, sent, response } => {},
        Event::SnapshotResponse { peer_id, done, response_term } => {},
        Event::RoundEnded => {
            let n = s.leader_commit_target();
            if n > s.commit_index {
                lemma_apply_range(s, s.last_applied, n);
            }
            lemma_extended_keeps(s.log, post.log);
        },
        Event::Shutdown => {},
        Event::EffectsTaken => {},
    }
}

/// A proposal that a leader accepts is in its log when the answer leaves: at the
/// index after the last one, in the current term, and the log is to be written
/// to disk.
pub proof fn theorem_accepted_proposal_is_logged(s: ConsensusView, data: Seq<u8>)
    requires
        s.inv(),
        s.handle_propose(data).1 is Some,
    ensures
        s.handle_propose(data).1 == Some((s.log.next_index() as u64, s.current_term())),
        s.state == State::Leader,
        held(s.handle_propose(data).0.log, s.log.next_index() as u64) == Some(
            LogEntryView {
                index: s.log.next_index() as u64,
                term: s.current_term(),
                entry_type: ENTRY_TYPE_DATA,
                data,
            },
        ),
        s.handle_propose(data).0.effects.contains(EffectView::PersistLog),
{
    let post = s.handle_propose(data).0;
    let n = s.effects.len() as int;
    assert(post.effects[n] == EffectView::PersistLog);
}

/// Two strict majorities of the same finite set of servers have a server in
/// common. So where every server casts at most one vote in a term, at most one
/// candidate gathers a strict majority of the votes of that term.
pub proof fn theorem_majorities_intersect(members: Set<u64>, a: Set<u64>, b: Set<u64>)
    requires
        members.finite(),
        a.subset_of(members),
        b.subset_of(members),
        2 * a.len() > members.len(),
        2 * b.len() > members.len(),
    ensures
        exists|id: u64| a.contains(id) && b.contains(id),
{
    vstd::set_lib::lemma_len_subset(a, members);
    vstd::set_lib::lemma_len_subset(b, members);
    if a.disjoint(b) {
        vstd::set_lib::lemma_set_disjoint_lens(a, b);
        assert((a + b).subset_of(members));
        vstd::set_lib::lemma_len_subset(a + b, members);
        assert(false);
    } else {
        let id = choose|id: u64| a.contains(id) && b.contains(id);
        assert(a.contains(id) && b.contains(id));
    }
}

/// Every peer of `post` is, in id and match index, a peer of `pre`.
#[verifier::opaque]
pub open spec fn peers_carried(pre: Seq<PeerView>, post: Seq<PeerView>) -> bool {
    forall|j: int| 0 <= j < post.len() ==> carries(pre, #[trigger] post[j])
}

/// Whether `peers` holds a peer with the id and the match index of `q`.
pub open spec fn carries(peers: Seq<PeerView>, q: PeerView) -> bool {
    exists|i: int|
        0 <= i < peers.len() && (#[trigger] peers[i]).id == q.id && peers[i].match_index
            == q.match_index
}

/// Whether `peers` holds a peer with the id of `q` and a match index that is no higher.
pub open spec fn not_above(peers: Seq<PeerView>, q: PeerView) -> bool {
    exists|i: int|
        0 <= i < peers.len() && (#[trigger] peers[i]).id == q.id && peers[i].match_index
            <= q.match_index
}

/// `post` continues `pre` peer by peer, in id and match index, and then holds
/// peers that `pre` did not know, with match index 0.
#[verifier::opaque]
pub open spec fn peers_grown(pre: Seq<PeerView>, post: Seq<PeerView>) -> bool {
    &&& post.len() >= pre.len()
    &&& forall|i: int|
        0 <= i < pre.len() ==> (#[trigger] post[i]).id == pre[i].id && post[i].match_index
            == pre[i].match_index
    &&& forall|j: int|
        pre.len() <= j < post.len() ==> (#[trigger] post[j]).match_index == 0 && !has_peer(
            pre,
            post[j].id,
        )
}

/// No peer that `pre` knew has a lower match index in `post`.
#[verifier::opaque]
pub open spec fn match_indexes_kept(pre: Seq<PeerView>, post: Seq<PeerView>) -> bool {
    forall|j: int|
        0 <= j < post.len() ==> !has_peer(pre, (#[trigger] post[j]).id) || not_above(pre, post[j])
}

proof fn lemma_carried_twice(a: Seq<PeerView>, b: Seq<PeerView>, c: Seq<PeerView>)
    requires
        peers_carried(a, b),
        peers_carried(b, c),
    ensures
        peers_carried(a, c),
{
    reveal(peers_carried);
    assert forall|j: int| 0 <= j < c.len() implies carries(a, #[trigger] c[j]) by {
        assert(carries(b, c[j]));
        let k = choose|k: int|
            0 <= k < b.len() && (#[trigger] b[k]).id == c[j].id && b[k].match_index
                == c[j].match_index;
        assert(carries(a, b[k]));
        let i = choose|i: int|
            0 <= i < a.len() && (#[trigger] a[i]).id == b[k].id && a[i].match_index
                == b[k].match_index;
        assert(a[i].id == c[j].id && a[i].match_index == c[j].match_index);
    }
}

proof fn lemma_grown_twice(a: Seq<PeerView>, b: Seq<PeerView>, c: Seq<PeerView>)
    requires
        peers_grown(a, b),
        peers_grown(b, c),
    ensures
        peers_grown(a, c),
{
    reveal(peers_grown);
    assert forall|j: int| a.len() <= j < c.len() implies (#[trigger] c[j]).match_index == 0
        && !has_peer(a, c[j].id) by {
        if j < b.len() {
            assert(c[j].id == b[j].id);
        } else {
            if has_peer(a, c[j].id) {
                let i = choose|i: int| 0 <= i < a.len() && (#[trigger] a[i]).id == c[j].id;
                assert(b[i].id == c[j].id);
                assert(has_peer(b, c[j].id));
            }
        }
    }
}

proof fn lemma_grown_then_carried(a: Seq<PeerView>, b: Seq<PeerView>, c: Seq<PeerView>)
    requires
        peers_grown(a, b),
        peers_carried(b, c),
    ensures
        match_indexes_kept(a, c),
{
    reveal(peers_carried);
    reveal(peers_grown);
    reveal(match_indexes_kept);
    assert forall|j: int| 0 <= j < c.len() implies !has_peer(a, (#[trigger] c[j]).id) || not_above(
        a,
        c[j],
    ) by {
        assert(carries(b, c[j]));
        let k = choose|k: int|
            0 <= k < b.len() && (#[trigger] b[k]).id == c[j].id && b[k].match_index
                == c[j].match_index;
        if k < a.len() {
            assert(a[k].id == c[j].id && a[k].match_index <= c[j].match_index);
        } else {
            assert(!has_peer(a, b[k].id));
        }
    }
}

/// A committed configuration adds no peer and changes no match index; a pending
/// one changes no match index and adds only peers that were not known.
proof fn lemma_apply_configuration_peers(s: ConsensusView, config: ConfigView, committed: bool)
    ensures
        committed ==> peers_carried(s.peers, s.apply_configuration(config, committed).peers),
        !committed ==> peers_grown(s.peers, s.apply_configuration(config, committed).peers),
        !committed && !config.is_joint() ==> peers_carried(
            s.peers,
            s.apply_configuration(config, committed).peers,
        ),
{
    reveal(peers_carried);
    reveal(peers_grown);
    let post = s.apply_configuration(config, committed);
    if committed {
        let switched = s.with_config(config);
        assert(peers_carried(s.peers, switched.peers)) by {
            assert forall|j: int| 0 <= j < switched.peers.len() implies carries(s.peers, #[trigger] switched.peers[j]) by {
                assert(s.peers[j].id == switched.peers[j].id);
            }
        }
        if config.is_stable() {
            let pred = in_servers(config.new_servers);
            let kept = switched.peers.filter(pred);
            assert(peers_carried(switched.peers, kept)) by {
                assert forall|j: int| 0 <= j < kept.len() implies carries(switched.peers, #[trigger] kept[j]) by {
                    assert(kept.contains(kept[j]));
                    switched.peers.lemma_filter_contains_rev(pred, kept[j]);
                    let i = choose|i: int|
                        0 <= i < switched.peers.len() && switched.peers[i] == kept[j];
                    assert(switched.peers[i].id == kept[j].id);
                }
            }
            lemma_carried_twice(s.peers, switched.peers, kept);
        }
    } else {
        if config.is_joint() {
            let test = joins(s.server_id, s.peers);
            let fresh = config.new_servers.filter(test);
            let joining = s.joining_peers(config);
            assert forall|j: int| s.peers.len() <= j < post.peers.len() implies (
            #[trigger] post.peers[j]).match_index == 0 && !has_peer(s.peers, post.peers[j].id) by {
                let k = j - s.peers.len();
                config.new_servers.lemma_filter_pred(test, k);
                assert(test(fresh[k]));
                assert(joining[k].id == fresh[k].server_id);
                assert((s.peers + joining)[j] == joining[k]);
            }
            assert forall|i: int| 0 <= i < s.peers.len() implies (#[trigger] post.peers[i]).id
                == s.peers[i].id && post.peers[i].match_index == s.peers[i].match_index by {
                assert((s.peers + joining)[i] == s.peers[i]);
            }
        } else {
            assert forall|j: int| 0 <= j < post.peers.len() implies carries(s.peers, #[trigger] post.peers[j]) by {
                assert(s.peers[j].id == post.peers[j].id);
            }
        }
    }
}

/// The stable configuration that a leader appends on its own adds no peer and
/// changes no match index.
proof fn lemma_final_config_peers(s: ConsensusView)
    ensures
        peers_carried(s.peers, s.append_final_config().peers),
{
    lemma_carried_self(s.peers);
    if s.state == State::Leader {
        match s.next_config(None) {
            Some(config) => {
                let appended = s.append_entry(EntryType::Configuration, encoded_config(config)).0;
                assert(appended.peers == s.peers);
                assert(!config.is_joint());
                lemma_apply_configuration_peers(appended, config, false);
            },
            None => {},
        }
    }
}

proof fn lemma_carried_self(peers: Seq<PeerView>)
    ensures
        peers_carried(peers, peers),
        peers_grown(peers, peers),
{
    reveal(peers_carried);
    reveal(peers_grown);
    assert forall|j: int| 0 <= j < peers.len() implies carries(peers, #[trigger] peers[j]) by {
        assert(peers[j].id == peers[j].id);
    }
}

/// A committed entry that takes effect adds no peer and changes no match index.
proof fn lemma_apply_entry_peers(s: ConsensusView, e: LogEntryView)
    ensures
        peers_carried(s.peers, s.apply_entry(e).peers),
{
    lemma_carried_self(s.peers);
    match entry_kind(e.entry_type) {
        EntryType::Configuration => match decoded_config(e.data) {
            Some(config) => {
                lemma_apply_configuration_peers(s, config, true);
                let switched = s.apply_configuration(config, true);
                if config.is_joint() {
                    lemma_final_config_peers(switched);
                    lemma_carried_twice(s.peers, switched.peers, switched.append_final_config().peers);
                }
            },
            None => {},
        },
        _ => {},
    }
}

/// Entries that take effect in order add no peer and change no match index.
proof fn lemma_apply_range_peers(s: ConsensusView, from: u64, to: u64)
    ensures
        peers_carried(s.peers, s.apply_range(from, to).peers),
    decreases to - from,
{
    lemma_carried_self(s.peers);
    if from < to {
        let index = (from + 1) as u64;
        match s.log.entry(index) {
            Some(e) => {
                lemma_apply_entry_peers(s, e);
                let next = ConsensusView { last_applied: index, ..s.apply_entry(e) };
                lemma_apply_range_peers(next, index, to);
                lemma_carried_twice(s.peers, next.peers, next.apply_range(index, to).peers);
            },
            None => {},
        }
    }
}

/// Pending configurations change no match index and add only peers that were not known.
proof fn lemma_apply_pending_configs_peers(s: ConsensusView, entries: Seq<LogEntryView>, k: int)
    ensures
        peers_grown(s.peers, s.apply_pending_configs(entries, k).peers),
    decreases entries.len() - k,
{
    lemma_carried_self(s.peers);
    if 0 <= k < entries.len() {
        let next = if entries[k].entry_type == ENTRY_TYPE_CONFIGURATION {
            match decoded_config(entries[k].data) {
                Some(config) => {
                    lemma_apply_configuration_peers(s, config, false);
                    s.apply_configuration(config, false)
                },
                None => s,
            }
        } else {
            s
        };
        lemma_apply_pending_configs_peers(next, entries, k + 1);
        lemma_grown_twice(s.peers, next.peers, next.apply_pending_configs(entries, k + 1).peers);
    }
}

/// Whether `event` is none of those that may lower a match index as described:
/// an election won, which resets every peer, and an answer of a peer that
/// confirms less than its match index.
pub open spec fn keeps_match_indexes(s: ConsensusView, event: Event) -> bool {
    match event {
        Event::ElectionConcluded => !(s.state == State::Candidate && has_vote_quorum(
            s.peers,
            s.node_config_state,
        )),
        Event::AppendResponse { peer_id, prev_log_index, sent, response } => s.state
            == State::Leader && response is Some && response->0.term <= s.current_term()
            && response->0.success && has_peer(s.peers, peer_id) ==> prev_log_index + sent
            >= s.peers[first_with_id(s.peers, peer_id)].match_index,
        Event::SnapshotResponse { peer_id, done, response_term } => s.state == State::Leader
            && response_term is Some && response_term->0 <= s.current_term() && done && has_peer(
            s.peers,
            peer_id,
        ) ==> s.snapshot.last_included_index >= s.peers[first_with_id(
            s.peers,
            peer_id,
        )].match_index,
        _ => true,
    }
}

proof fn lemma_update_keeps(peers: Seq<PeerView>, i: int, peer: PeerView)
    requires
        0 <= i < peers.len(),
        peer.id == peers[i].id,
        peer.match_index >= peers[i].match_index,
    ensures
        match_indexes_kept(peers, peers.update(i, peer)),
{
    reveal(match_indexes_kept);
    let post = peers.update(i, peer);
    assert forall|j: int| 0 <= j < post.len() implies !has_peer(peers, (#[trigger] post[j]).id)
        || not_above(peers, post[j]) by {
        assert(peers[j].id == post[j].id && peers[j].match_index <= post[j].match_index);
    }
}

proof fn lemma_carried_keeps(pre: Seq<PeerView>, post: Seq<PeerView>)
    requires
        peers_carried(pre, post),
    ensures
        match_indexes_kept(pre, post),
{
    lemma_carried_self(pre);
    lemma_grown_then_carried(pre, pre, post);
}

proof fn lemma_match_append_entries(s: ConsensusView, request: AppendEntriesRequestView)
    requires
        s.inv(),
    ensures
        match_indexes_kept(s.peers, s.handle_append_entries(request).0.peers),
{
    let post = s.handle_append_entries(request).0;
    lemma_carried_self(s.peers);
    lemma_carried_keeps(s.peers, s.peers);
    if !(request.term == 0 || request.term < s.current_term()) {
        let following = s.follow(request.term, request.leader_id);
        assert(following.peers == s.peers);
        if consecutive_from(request.entries, request.prev_log_index + 1) && following.prev_matches(
            request,
        ) {
            match following.accept_entries(request.entries) {
                Some(accepted) => {
                    let k = first_new(following.log, request.entries, 0);
                    if k < request.entries.len() {
                        let tail = request.entries.skip(k);
                        let kept = following.log.truncate_suffix((tail[0].index - 1) as u64);
                        let installed = (ConsensusView {
                            log: LogView { entries: kept.entries + tail, ..kept },
                            ..following
                        }).emit(EffectView::PersistLog);
                        lemma_apply_pending_configs_peers(installed, tail, 0);
                    }
                    assert(peers_grown(s.peers, accepted.peers));
                    let n = accepted.follower_commit_target(request.leader_commit);
                    lemma_carried_self(accepted.peers);
                    if n > accepted.commit_index {
                        lemma_apply_range_peers(accepted, accepted.last_applied, n);
                    }
                    lemma_grown_then_carried(s.peers, accepted.peers, post.peers);
                },
                None => {},
            }
        }
    }
}

proof fn lemma_match_set_configuration(s: ConsensusView, target: Seq<ServerInfoView>)
    ensures
        match_indexes_kept(s.peers, s.handle_set_configuration(target).0.peers),
{
    let post = s.handle_set_configuration(target).0;
    lemma_carried_self(s.peers);
    lemma_carried_keeps(s.peers, s.peers);
    if s.may_set_configuration(target) {
        match s.next_config(Some(target)) {
            Some(config) => {
                let appended = s.append_entry(EntryType::Configuration, encoded_config(config)).0;
                lemma_apply_configuration_peers(appended, config, false);
                lemma_carried_self(post.peers);
                lemma_grown_then_carried(s.peers, post.peers, post.peers);
            },
            None => {},
        }
    }
}

proof fn lemma_match_replicate(s: ConsensusView, kind: EntryType, data: Seq<u8>)
    ensures
        match_indexes_kept(s.peers, s.replicate(kind, data).0.peers),
{
    let post = s.replicate(kind, data).0;
    lemma_carried_self(s.peers);
    lemma_carried_keeps(s.peers, s.peers);
    let (appended, done) = s.append_entry(kind, data);
    if done && kind == EntryType::Configuration {
        match decoded_config(data) {
            Some(config) => {
                lemma_apply_configuration_peers(appended, config, false);
                lemma_carried_self(post.peers);
                lemma_grown_then_carried(s.peers, post.peers, post.peers);
            },
            None => {},
        }
    }
}

proof fn lemma_match_propose(s: ConsensusView, data: Seq<u8>)
    ensures
        s.handle_propose(data).0.peers == s.peers,
{
}

/// A function applied to every peer that changes neither id nor match index
/// carries every peer over.
proof fn lemma_map_carries(peers: Seq<PeerView>, f: spec_fn(PeerView) -> PeerView)
    requires
        forall|p: PeerView| (#[trigger] f(p)).id == p.id && f(p).match_index == p.match_index,
    ensures
        peers_carried(peers, peers.map_values(f)),
{
    reveal(peers_carried);
    let post = peers.map_values(f);
    assert forall|j: int| 0 <= j < post.len() implies carries(peers, #[trigger] post[j]) by {
        assert(peers[j].id == post[j].id && peers[j].match_index == post[j].match_index);
    }
}

proof fn lemma_match_finish_install(s: ConsensusView, snapshot: SnapshotView, file: Option<Seq<char>>)
    ensures
        match_indexes_kept(s.peers, s.finish_install(snapshot, file).peers),
{
    let post = s.finish_install(snapshot, file);
    lemma_carried_self(s.peers);
    match snapshot.configuration {
        Some(config) => {
            lemma_map_carries(s.peers, membership_map(config));
        },
        None => {},
    }
    assert(peers_carried(s.peers, post.peers));
    lemma_carried_keeps(s.peers, post.peers);
}

proof fn lemma_match_election_timeout(s: ConsensusView)
    ensures
        match_indexes_kept(s.peers, s.handle_election_timeout().peers),
{
    lemma_carried_self(s.peers);
    lemma_map_carries(s.peers, vote_reset_map());
    lemma_carried_keeps(s.peers, s.handle_election_timeout().peers);
}

proof fn lemma_match_vote_response(s: ConsensusView, peer_id: u64, vote: Option<RequestVoteResponse>)
    ensures
        match_indexes_kept(s.peers, s.handle_request_vote_response(peer_id, vote).peers),
{
    lemma_carried_self(s.peers);
    lemma_carried_keeps(s.peers, s.peers);
    if has_peer(s.peers, peer_id) {
        lemma_first_with_id(s.peers, peer_id);
        let i = first_with_id(s.peers, peer_id);
        lemma_update_keeps(s.peers, i, PeerView { vote_granted: true, ..s.peers[i] });
    }
}

proof fn lemma_match_append_response(
    s: ConsensusView,
    peer_id: u64,
    prev_log_index: u64,
    sent: u64,
    response: Option<AppendEntriesResponse>,
)
    requires
        keeps_match_indexes(s, Event::AppendResponse { peer_id, prev_log_index, sent, response }),
    ensures
        match_indexes_kept(
            s.peers,
            s.handle_append_entries_response(peer_id, prev_log_index, sent, response).peers,
        ),
{
    lemma_carried_self(s.peers);
    lemma_carried_keeps(s.peers, s.peers);
    if has_peer(s.peers, peer_id) {
        lemma_first_with_id(s.peers, peer_id);
        let i = first_with_id(s.peers, peer_id);
        let peer = s.peers[i];
        if s.state == State::Leader && response is Some && response->0.term <= s.current_term() {
            if response->0.success {
                if prev_log_index + sent < u64::MAX {
                    lemma_update_keeps(
                        s.peers,
                        i,
                        PeerView {
                            match_index: (prev_log_index + sent) as u64,
                            next_index: (prev_log_index + sent + 1) as u64,
                            ..peer
                        },
                    );
                }
            } else if peer.next_index > 1 {
                lemma_update_keeps(
                    s.peers,
                    i,
                    PeerView { next_index: (peer.next_index - 1) as u64, ..peer },
                );
            }
        }
    }
}

proof fn lemma_match_snapshot_response(
    s: ConsensusView,
    peer_id: u64,
    done: bool,
    response_term: Option<u64>,
)
    requires
        keeps_match_indexes(s, Event::SnapshotResponse { peer_id, done, response_term }),
    ensures
        match_indexes_kept(
            s.peers,
            s.handle_install_snapshot_response(peer_id, done, response_term).peers,
        ),
{
    lemma_carried_self(s.peers);
    lemma_carried_keeps(s.peers, s.peers);
    if has_peer(s.peers, peer_id) {
        lemma_first_with_id(s.peers, peer_id);
        let i = first_with_id(s.peers, peer_id);
        if s.state == State::Leader && response_term is Some && response_term->0
            <= s.current_term() && done {
            lemma_update_keeps(
                s.peers,
                i,
                PeerView {
                    next_index: index_after(s.snapshot.last_included_index),
                    match_index: s.snapshot.last_included_index,
                    ..s.peers[i]
                },
            );
        }
    }
}

proof fn lemma_match_round_ended(s: ConsensusView)
    ensures
        match_indexes_kept(s.peers, s.leader_advance_commit_index().peers),
{
    lemma_carried_self(s.peers);
    let n = s.leader_commit_target();
    if n > s.commit_index {
        lemma_apply_range_peers(s, s.last_applied, n);
    }
    lemma_carried_keeps(s.peers, s.leader_advance_commit_index().peers);
}

proof fn lemma_match_unchanged(s: ConsensusView, post: ConsensusView)
    requires
        post.peers == s.peers || post.peers.len() == 0,
    ensures
        match_indexes_kept(s.peers, post.peers),
{
    reveal(match_indexes_kept);
    lemma_carried_self(s.peers);
    lemma_carried_keeps(s.peers, s.peers);
}

/// The match index that a leader keeps for a peer never falls, whatever happens,
/// but for the two ways in which it is meant to: every peer starts again at 0
/// when an election is won, and an answer of a peer sets its match index to what
/// the answer confirms.
pub proof fn theorem_match_index_kept(s: ConsensusView, event: Event)
    requires
        s.inv(),
        keeps_match_indexes(s, event),
    ensures
        match_indexes_kept(s.peers, s.step(event).peers),
{
    match event {
        Event::AppendEntries(request) => {
            lemma_match_append_entries(s, request);
        },
        Event::RequestVote(request) => {
            lemma_match_unchanged(s, s.handle_request_vote(request).0);
        },
        Event::InstallSnapshotChunk { term, leader_id, data_type, offset } => {
            lemma_match_unchanged(s, s.handle_install_snapshot(term, leader_id, data_type, offset));
        },
        Event::InstallSnapshotDone { snapshot, file } => {
            lemma_match_finish_install(s, snapshot, file);
        },
        Event::Propose(data) => {
            lemma_match_propose(s, data);
            lemma_match_unchanged(s, s.handle_propose(data).0);
        },
        Event::Replicate { kind, data } => {
            lemma_match_replicate(s, kind, data);
        },
        Event::SetConfiguration(target) => {
            lemma_match_set_configuration(s, target);
        },
        Event::ElectionTimeout => {
            lemma_match_election_timeout(s);
        },
        Event::HeartbeatTimeout => {
            lemma_match_unchanged(s, s.step(event));
        },
        Event::SnapshotTimeout => {
            lemma_match_unchanged(s, s.handle_snapshot_timeout());
        },
        Event::SnapshotWritten { index, term, config, file_exists } => {
            lemma_match_unchanged(s, s.complete_snapshot(index, term, config, file_exists));
        },
        Event::VoteResponse { peer_id, vote } => {
            lemma_match_vote_response(s, peer_id, vote);
        },
        Event::ElectionConcluded => {
            lemma_match_unchanged(s, s.conclude_election());
        },
        Event::AppendResponse { peer_id, prev_log_index, sent, response } => {
            lemma_match_append_response(s, peer_id, prev_log_index, sent, response);
        },
        Event::SnapshotResponse { peer_id, done, response_term } => {
            lemma_match_snapshot_response(s, peer_id, done, response_term);
        },
        Event::RoundEnded => {
            lemma_match_round_ended(s);
        },
        Event::Shutdown => {
            lemma_match_unchanged(s, s.shutdown());
        },
        Event::EffectsTaken => {
            lemma_match_unchanged(s, s.step(event));
        },
    }
}

/// Whenever the commit index of a replica rises, every entry up to it has taken
/// effect: the applied index is then the commit index. With the applied index
/// never falling and entries taking effect one index at a time, every committed
/// entry takes effect exactly once, in index order.
pub proof fn theorem_applied_reaches_commit(s: ConsensusView, event: Event)
    requires
        s.inv(),
    ensures
        s.step(event).commit_index > s.commit_index ==> s.step(event).last_applied
            == s.step(event).commit_index,
{
    lemma_step(s, event);
    match event {
        Event::AppendEntries(request) => {
            if !(request.term == 0 || request.term < s.current_term()) {
                lemma_step_down(s, request.term);
                let following = s.follow(request.term, request.leader_id);
                assert(following.inv());
                if consecutive_from(request.entries, request.prev_log_index + 1)
                    && following.prev_matches(request) {
                    match following.accept_entries(request.entries) {
                        Some(accepted) => {
                            lemma_accept_entries(following, request.entries, request.prev_log_index);
                            lemma_advance_commit(
                                accepted,
                                accepted.follower_commit_target(request.leader_commit),
                            );
                        },
                        None => {},
                    }
                }
            }
        },
        Event::RoundEnded => {
            lemma_advance_commit(s, s.leader_commit_target());
        },
        Event::Propose(data) => {
            lemma_replicate(s, EntryType::Data, data);
        },
        Event::Replicate { kind, data } => {
            lemma_replicate(s, kind, data);
        },
        Event::SetConfiguration(target) => {
            lemma_config_change(s, Some(target));
        },
        Event::ElectionConcluded => {
            lemma_become_leader(s);
            if s.state == State::Candidate {
                let next = index_after(s.last_log_index());
                let led = ConsensusView {
                    state: State::Leader,
                    leader_id: s.server_id,
                    peers: s.peers.map_values(leader_reset_map(next)),
                    ..s
                };
                assert(led.flags_consistent());
                lemma_replicate(led, EntryType::Noop, none_data());
            }
        },
        _ => {},
    }
}

/// Whether a strict majority of the members of one server set has replicated the
/// log up to `index`, as far as the leader knows; an empty set is satisfied.
pub open spec fn set_has_replicated(s: ConsensusView, new_set: bool, index: u64) -> bool {
    let values = member_match_indexes(
        s.peers,
        new_set,
        if new_set {
            s.node_config_state.newing
        } else {
            s.node_config_state.olding
        },
        s.last_log_index(),
    );
    values.len() == 0 || 2 * count_at_least(values, index) > values.len()
}

/// A leader raises its commit index only to an index that a strict majority of
/// every non-empty server set has replicated. So a proposal is answered with
/// success only once its entry is held by such a majority.
pub proof fn theorem_leader_commit_has_quorum(s: ConsensusView)
    requires
        s.inv(),
        s.leader_advance_commit_index().commit_index > s.commit_index,
    ensures
        set_has_replicated(s, true, s.leader_advance_commit_index().commit_index),
        set_has_replicated(s, false, s.leader_advance_commit_index().commit_index),
{
    let n = s.leader_commit_target();
    assert(s.leader_advance_commit_index().commit_index == n);
    let new_values = member_match_indexes(s.peers, true, s.node_config_state.newing, s.last_log_index());
    let old_values = member_match_indexes(
        s.peers,
        false,
        s.node_config_state.olding,
        s.last_log_index(),
    );
    if new_values.len() > 0 {
        lemma_quorum_median_is_majority(new_values);
        lemma_count_at_least_monotone(new_values, n, quorum_median(new_values));
    }
    if old_values.len() > 0 {
        lemma_quorum_median_is_majority(old_values);
        lemma_count_at_least_monotone(old_values, n, quorum_median(old_values));
    }
}

} // verus!
