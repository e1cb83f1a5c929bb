//! Volatile replication state that a leader keeps for every other server.
use vstd::prelude::*;
use vstd::relations::{sorted_by, total_ordering};
use vstd::seq_lib::{lemma_sorted_unique, to_multiset_update};
use crate::raft::config::{contains_server, has_server, Config, ConfigState, ConfigView};
use crate::raft::proto::{ServerInfo, ServerInfoView};

verus! {

/// What a leader tracks about one remote server.
#[derive(Debug)]
pub struct Peer {
    /// Identifier of the server within the cluster.
    pub id: u64,
    /// Address under which the server is reached.
    pub addr: String,
    /// Index of the next log entry to send to the server.
    pub next_index: u64,
    /// Highest log index known to be replicated on the server.
    pub match_index: u64,
    /// Whether the server granted its vote in the running election.
    pub vote_granted: bool,
    /// Membership of the server in the current configuration.
    pub config_state: ConfigState,
}

/// Mathematical value of a `Peer`.
pub struct PeerView {
    pub id: u64,
    pub addr: Seq<char>,
    pub next_index: u64,
    pub match_index: u64,
    pub vote_granted: bool,
    pub config_state: ConfigState,
}

impl View for Peer {
    type V = PeerView;

    open spec fn view(&self) -> PeerView {
        PeerView {
            id: self.id,
            addr: self.addr@,
            next_index: self.next_index,
            match_index: self.match_index,
            vote_granted: self.vote_granted,
            config_state: self.config_state,
        }
    }
}

impl DeepView for Peer {
    type V = PeerView;

    open spec fn deep_view(&self) -> PeerView {
        self@
    }
}

impl Clone for Peer {
    fn clone(&self) -> (r: Self)
        ensures
            r@ == self@,
    {
        Peer {
            id: self.id,
            addr: self.addr.clone(),
            next_index: self.next_index,
            match_index: self.match_index,
            vote_granted: self.vote_granted,
            config_state: self.config_state,
        }
    }
}

impl Default for Peer {
    fn default() -> (r: Self)
        ensures
            r@ == (PeerView {
                id: 0,
                addr: Seq::empty(),
                next_index: 0,
                match_index: 0,
                vote_granted: false,
                config_state: ConfigState { newing: false, olding: false },
            }),
    {
        Peer {
            id: 0,
            addr: String::new(),
            next_index: 0,
            match_index: 0,
            vote_granted: false,
            config_state: ConfigState { newing: false, olding: false },
        }
    }
}

impl Peer {
    /// A peer that has replicated nothing and granted no vote, member of the new configuration.
    pub fn new(server_id: u64, server_addr: String) -> (r: Self)
        ensures
            r@ == (PeerView {
                id: server_id,
                addr: server_addr@,
                next_index: 1,
                match_index: 0,
                vote_granted: false,
                config_state: ConfigState { newing: true, olding: false },
            }),
    {
        Peer {
            id: server_id,
            addr: server_addr,
            next_index: 1,
            match_index: 0,
            vote_granted: false,
            config_state: ConfigState::new(),
        }
    }
}

/// The peer table of a replica: one `Peer` for every other server it talks to.
#[derive(Debug)]
pub struct PeerManager {
    peers: Vec<Peer>,
}

impl View for PeerManager {
    type V = Seq<PeerView>;

    closed spec fn view(&self) -> Seq<PeerView> {
        self.peers.deep_view()
    }
}

/// `peer` with its `next_index` replaced.
pub open spec fn with_next_index(peer: PeerView, next_index: u64) -> PeerView {
    PeerView { next_index, ..peer }
}

/// `peer` with its vote withdrawn.
pub open spec fn without_vote(peer: PeerView) -> PeerView {
    PeerView { vote_granted: false, ..peer }
}

/// `peer` with the membership that `config` gives it.
pub open spec fn with_membership(peer: PeerView, config: ConfigView) -> PeerView {
    PeerView { config_state: config.node_state(peer.id), ..peer }
}

/// `peer` as a new leader initializes it.
pub open spec fn reset_for_leader(peer: PeerView, next_index: u64) -> PeerView {
    PeerView { next_index, match_index: 0, ..peer }
}

/// The peer that stands for server `s` when it joins the peer table.
pub open spec fn peer_for(s: ServerInfoView, next_index: u64) -> PeerView {
    PeerView {
        id: s.server_id,
        addr: s.server_addr,
        next_index,
        match_index: 0,
        vote_granted: false,
        config_state: ConfigState { newing: true, olding: false },
    }
}

/// The function that gives every peer the membership it has in `config`.
pub open spec fn membership_map(config: ConfigView) -> spec_fn(PeerView) -> PeerView {
    |p: PeerView| with_membership(p, config)
}

/// The function that initializes every peer for a new leader.
pub open spec fn leader_reset_map(next_index: u64) -> spec_fn(PeerView) -> PeerView {
    |p: PeerView| reset_for_leader(p, next_index)
}

/// The function that withdraws the vote of every peer.
pub open spec fn vote_reset_map() -> spec_fn(PeerView) -> PeerView {
    |p: PeerView| without_vote(p)
}

/// The function that sets the next index of every peer.
pub open spec fn next_index_map(next_index: u64) -> spec_fn(PeerView) -> PeerView {
    |p: PeerView| with_next_index(p, next_index)
}

/// The test whether a peer is one of `servers`.
pub open spec fn in_servers(servers: Seq<ServerInfoView>) -> spec_fn(PeerView) -> bool {
    |p: PeerView| has_server(servers, p.id)
}

/// The test whether a server joins the peer table of replica `own_id`, which holds `peers`.
pub open spec fn joins(own_id: u64, peers: Seq<PeerView>) -> spec_fn(ServerInfoView) -> bool {
    |s: ServerInfoView| s.server_id != own_id && !has_peer(peers, s.server_id)
}

/// The function that makes a peer of a joining server.
pub open spec fn joining_map(next_index: u64) -> spec_fn(ServerInfoView) -> PeerView {
    |s: ServerInfoView| peer_for(s, next_index)
}

/// Whether some peer of `peers` has the id `id`.
pub open spec fn has_peer(peers: Seq<PeerView>, id: u64) -> bool {
    exists|i: int| 0 <= i < peers.len() && (#[trigger] peers[i]).id == id
}

/// Whether `i` is the position of the first peer with the id `id`.
pub open spec fn is_first_with_id(peers: Seq<PeerView>, id: u64, i: int) -> bool {
    &&& 0 <= i < peers.len()
    &&& peers[i].id == id
    &&& forall|j: int| 0 <= j < i ==> (#[trigger] peers[j]).id != id
}

/// The position of the first peer with the id `id`; only meaningful where `has_peer` holds.
pub open spec fn first_with_id(peers: Seq<PeerView>, id: u64) -> int {
    choose|i: int| is_first_with_id(peers, id, i)
}

/// Among peers of which one has the id `id`, there is a first one.
pub proof fn lemma_first_with_id(peers: Seq<PeerView>, id: u64)
    requires
        has_peer(peers, id),
    ensures
        is_first_with_id(peers, id, first_with_id(peers, id)),
{
    let some = choose|i: int| 0 <= i < peers.len() && (#[trigger] peers[i]).id == id;
    lemma_first_before(peers, id, some);
}

/// Among peers of which the one at `upto` has the id `id`, there is a first one.
proof fn lemma_first_before(peers: Seq<PeerView>, id: u64, upto: int)
    requires
        0 <= upto < peers.len(),
        peers[upto].id == id,
    ensures
        exists|i: int| is_first_with_id(peers, id, i),
    decreases upto,
{
    if exists|j: int| 0 <= j < upto && (#[trigger] peers[j]).id == id {
        let j = choose|j: int| 0 <= j < upto && (#[trigger] peers[j]).id == id;
        lemma_first_before(peers, id, j);
    } else {
        assert(is_first_with_id(peers, id, upto));
    }
}

/// `peers` without the first peer that has the id `id`.
pub open spec fn without_first(peers: Seq<PeerView>, id: u64) -> Seq<PeerView> {
    if has_peer(peers, id) {
        peers.remove(first_with_id(peers, id))
    } else {
        peers
    }
}

/// `peers` after removing, for each id of `ids` in order, the first peer with that id.
pub open spec fn without_ids(peers: Seq<PeerView>, ids: Seq<u64>) -> Seq<PeerView>
    decreases ids.len(),
{
    if ids.len() == 0 {
        peers
    } else {
        without_first(without_ids(peers, ids.drop_last()), ids.last())
    }
}

/// The order of `u64` as a relation.
pub open spec fn leq_u64() -> spec_fn(u64, u64) -> bool {
    |a: u64, b: u64| a <= b
}

/// Whether `peer` belongs to the new server set (`new_set`) or to the old one.
pub open spec fn is_member(peer: PeerView, new_set: bool) -> bool {
    if new_set {
        peer.config_state.newing
    } else {
        peer.config_state.olding
    }
}

/// The match indexes of the members of one server set: the leader's last log index
/// first, where the leader is a member, then those of the member peers in order.
pub open spec fn member_match_indexes(
    peers: Seq<PeerView>,
    new_set: bool,
    leader_member: bool,
    leader_last_index: u64,
) -> Seq<u64>
    decreases peers.len(),
{
    if peers.len() == 0 {
        if leader_member {
            seq![leader_last_index]
        } else {
            Seq::empty()
        }
    } else {
        let before = member_match_indexes(
            peers.drop_last(),
            new_set,
            leader_member,
            leader_last_index,
        );
        if is_member(peers.last(), new_set) {
            before.push(peers.last().match_index)
        } else {
            before
        }
    }
}

/// The quorum median of `values`: element `(n - 1) / 2` of the `n` values in ascending
/// order, and `u64::MAX` where there is no value.
pub open spec fn quorum_median(values: Seq<u64>) -> u64 {
    if values.len() == 0 {
        u64::MAX
    } else {
        values.sort_by(leq_u64())[(values.len() - 1) / 2]
    }
}

/// The highest index that a quorum of every non-empty server set has replicated.
pub open spec fn quorum_match_index(
    peers: Seq<PeerView>,
    leader_state: ConfigState,
    leader_last_index: u64,
) -> u64 {
    let new_median = quorum_median(
        member_match_indexes(peers, true, leader_state.newing, leader_last_index),
    );
    let old_median = quorum_median(
        member_match_indexes(peers, false, leader_state.olding, leader_last_index),
    );
    if new_median <= old_median {
        new_median
    } else {
        old_median
    }
}

/// How many peers belong to the given server set.
pub open spec fn member_count(peers: Seq<PeerView>, new_set: bool) -> nat {
    peers.filter(|p: PeerView| is_member(p, new_set)).len()
}

/// How many peers belong to the given server set and have granted their vote.
pub open spec fn granted_count(peers: Seq<PeerView>, new_set: bool) -> nat {
    peers.filter(|p: PeerView| is_member(p, new_set) && p.vote_granted).len()
}

/// Whether the votes granted in one server set, the candidate's own included where it
/// is a member, make a strict majority of that set. An empty set is satisfied.
pub open spec fn set_has_vote_quorum(peers: Seq<PeerView>, new_set: bool, candidate_member: bool) -> bool {
    let own: nat = if candidate_member {
        1
    } else {
        0
    };
    let total = member_count(peers, new_set) + own;
    let granted = granted_count(peers, new_set) + own;
    total == 0 || 2 * granted > total
}

/// Whether the candidate holds a strict majority of the votes in every non-empty server set.
pub open spec fn has_vote_quorum(peers: Seq<PeerView>, candidate_state: ConfigState) -> bool {
    set_has_vote_quorum(peers, true, candidate_state.newing) && set_has_vote_quorum(
        peers,
        false,
        candidate_state.olding,
    )
}

/// The order of `u64` is a total order.
pub proof fn lemma_leq_u64_total()
    ensures
        total_ordering(leq_u64()),
{
    let r = leq_u64();
    assert(vstd::relations::reflexive(r));
    assert(vstd::relations::antisymmetric(r));
    assert(vstd::relations::transitive(r));
    assert(vstd::relations::strongly_connected(r));
}

/// The test whether a value is at least `x`.
pub open spec fn at_least(x: u64) -> spec_fn(u64) -> bool {
    |v: u64| v >= x
}

/// How many of `values` are at least `x`.
pub open spec fn count_at_least(values: Seq<u64>, x: u64) -> nat {
    values.filter(at_least(x)).len()
}

/// Two sequences with the same elements hold equally many that pass a test.
proof fn lemma_filter_len_of_permutation(a: Seq<u64>, b: Seq<u64>, p: spec_fn(u64) -> bool)
    requires
        a.to_multiset() == b.to_multiset(),
    ensures
        a.filter(p).len() == b.filter(p).len(),
    decreases a.len(),
{
    vstd::seq_lib::to_multiset_len(a);
    vstd::seq_lib::to_multiset_len(b);
    if a.len() == 0 {
        assert(a =~= b);
    } else {
        let x = a.last();
        assert(a.contains(x)) by {
            assert(a[a.len() - 1] == x);
        }
        vstd::seq_lib::to_multiset_contains(a, x);
        vstd::seq_lib::to_multiset_contains(b, x);
        let i = choose|i: int| 0 <= i < b.len() && b[i] == x;
        let a1 = a.drop_last();
        let b1 = b.remove(i);
        assert(a1 =~= a.remove(a.len() - 1));
        vstd::seq_lib::to_multiset_remove(a, a.len() - 1);
        vstd::seq_lib::to_multiset_remove(b, i);
        lemma_filter_len_of_permutation(a1, b1, p);
        let front = b.take(i);
        let back = b.skip(i + 1);
        let one = seq![x];
        assert(b =~= front + one + back);
        assert(b1 =~= front + back);
        Seq::filter_distributes_over_add(front + one, back, p);
        Seq::filter_distributes_over_add(front, one, p);
        Seq::filter_distributes_over_add(front, back, p);
        reveal(Seq::filter);
        assert(one.drop_last() =~= Seq::<u64>::empty());
        assert(one.filter(p).len() == if p(x) {
            1nat
        } else {
            0nat
        }) by {
            assert(one.drop_last().filter(p) =~= Seq::<u64>::empty());
            assert(one.last() == x);
        }
    }
}

/// A sequence of which every element passes a test is its own filtrate.
proof fn lemma_filter_all(s: Seq<u64>, p: spec_fn(u64) -> bool)
    requires
        forall|i: int| 0 <= i < s.len() ==> p(#[trigger] s[i]),
    ensures
        s.filter(p) == s,
    decreases s.len(),
{
    reveal(Seq::filter);
    if s.len() > 0 {
        lemma_filter_all(s.drop_last(), p);
        assert(s.drop_last().push(s.last()) =~= s);
    }
}

/// A sequence of which no element passes a test has an empty filtrate.
proof fn lemma_filter_none(s: Seq<u64>, p: spec_fn(u64) -> bool)
    requires
        forall|i: int| 0 <= i < s.len() ==> !p(#[trigger] s[i]),
    ensures
        s.filter(p).len() == 0,
    decreases s.len(),
{
    reveal(Seq::filter);
    if s.len() > 0 {
        lemma_filter_none(s.drop_last(), p);
    }
}

/// No more values are at least a higher bound than are at least a lower one.
pub proof fn lemma_count_at_least_monotone(values: Seq<u64>, low: u64, high: u64)
    requires
        low <= high,
    ensures
        count_at_least(values, low) >= count_at_least(values, high),
    decreases values.len(),
{
    reveal(Seq::filter);
    if values.len() > 0 {
        lemma_count_at_least_monotone(values.drop_last(), low, high);
    }
}

/// The quorum median is the highest value that a strict majority reaches: more
/// than half of the values are at least the quorum median, and no more than half
/// are at least any higher value.
pub proof fn lemma_quorum_median_is_majority(values: Seq<u64>)
    requires
        values.len() > 0,
    ensures
        2 * count_at_least(values, quorum_median(values)) > values.len(),
        forall|x: u64|
            x > quorum_median(values) ==> 2 * #[trigger] count_at_least(values, x) <= values.len(),
{
    let sorted = values.sort_by(leq_u64());
    let n = values.len() as int;
    let k = (n - 1) / 2;
    lemma_leq_u64_total();
    values.lemma_sort_by_ensures(leq_u64());
    vstd::seq_lib::to_multiset_len(values);
    vstd::seq_lib::to_multiset_len(sorted);
    let m = sorted[k];
    assert(m == quorum_median(values));
    assert forall|i: int, j: int| 0 <= i <= j < n implies sorted[i] <= sorted[j] by {
        if i < j {
            assert(leq_u64()(sorted[i], sorted[j]));
        }
    }
    let low = sorted.take(k);
    let high = sorted.skip(k);
    assert(sorted =~= low + high);
    lemma_filter_len_of_permutation(values, sorted, at_least(m));
    Seq::filter_distributes_over_add(low, high, at_least(m));
    assert forall|i: int| 0 <= i < high.len() implies at_least(m)(#[trigger] high[i]) by {
        assert(high[i] == sorted[k + i]);
    }
    lemma_filter_all(high, at_least(m));
    assert(count_at_least(values, m) >= n - k);
    assert forall|x: u64| x > m implies 2 * #[trigger] count_at_least(values, x) <= values.len() by {
        let below = sorted.take(k + 1);
        let above = sorted.skip(k + 1);
        assert(sorted =~= below + above);
        lemma_filter_len_of_permutation(values, sorted, at_least(x));
        Seq::filter_distributes_over_add(below, above, at_least(x));
        assert forall|i: int| 0 <= i < below.len() implies !at_least(x)(#[trigger] below[i]) by {
            assert(below[i] == sorted[i]);
            assert(sorted[i] <= sorted[k]);
        }
        lemma_filter_none(below, at_least(x));
        above.lemma_filter_len(at_least(x));
        assert(count_at_least(values, x) <= n - k - 1);
    }
}

/// Sorts `v` in ascending order.
fn sort_ascending(v: &mut Vec<u64>)
    ensures
        final(v)@ == old(v)@.sort_by(leq_u64()),
{
    let ghost start = v@;
    let n: usize = v.len();
    let mut i: usize = 1;
    while i < n
        invariant
            v.len() == n,
            1 <= i,
            v@.to_multiset() == start.to_multiset(),
            forall|a: int, b: int| 0 <= a < b < i && b < n ==> v@[a] <= v@[b],
        decreases n - i,
    {
        let mut j: usize = i;
        while j > 0 && v[j - 1] > v[j]
            invariant
                v.len() == n,
                j <= i < n,
                v@.to_multiset() == start.to_multiset(),
                forall|a: int, b: int| 0 <= a < b <= i && a != j && b != j ==> v@[a] <= v@[b],
                forall|b: int| j < b <= i ==> v@[j as int] <= v@[b],
            decreases j,
        {
            let ghost before = v@;
            let low: u64 = v[j];
            let high: u64 = v[j - 1];
            v.set(j - 1, low);
            v.set(j, high);
            proof {
                broadcast use vstd::multiset::group_multiset_axioms;

                let mid = before.update(j - 1, low);
                assert(v@ =~= mid.update(j as int, high));
                to_multiset_update(before, j - 1, low);
                to_multiset_update(mid, j as int, high);
                vstd::seq_lib::to_multiset_contains(before, high);
                assert(before.contains(high)) by {
                    assert(before[j - 1] == high);
                }
                assert(v@.to_multiset() =~= before.to_multiset());
            }
            j -= 1;
        }
        i += 1;
    }
    proof {
        lemma_leq_u64_total();
        assert(sorted_by(v@, leq_u64()));
        start.lemma_sort_by_ensures(leq_u64());
        lemma_sorted_unique(v@, start.sort_by(leq_u64()), leq_u64());
    }
}

/// The quorum median of `values`.
fn median_of(values: Vec<u64>) -> (r: u64)
    ensures
        r == quorum_median(values@),
{
    let mut sorted = values;
    if sorted.len() == 0 {
        return u64::MAX;
    }
    let ghost n = sorted.len();
    sort_ascending(&mut sorted);
    proof {
        lemma_leq_u64_total();
        values@.lemma_sort_by_ensures(leq_u64());
        vstd::seq_lib::to_multiset_len(values@);
        vstd::seq_lib::to_multiset_len(sorted@);
    }
    sorted[(sorted.len() - 1) / 2]
}

impl PeerManager {
    /// An empty peer table.
    pub fn new() -> (r: Self)
        ensures
            r@.len() == 0,
    {
        PeerManager { peers: Vec::new() }
    }

    /// Adds `new_peers`, each set to receive the entry after `last_log_index` next.
    pub fn add(&mut self, new_peers: Vec<Peer>, last_log_index: u64)
        requires
            last_log_index < u64::MAX,
        ensures
            final(self)@ == old(self)@ + new_peers.deep_view().map_values(
                next_index_map((last_log_index + 1) as u64),
            ),
    {
        let ghost before = self@;
        let ghost added = new_peers.deep_view();
        let mut i: usize = 0;
        while i < new_peers.len()
            invariant
                i <= new_peers.len(),
                added == new_peers.deep_view(),
                last_log_index < u64::MAX,
                self.peers.len() == before.len() + i,
                forall|j: int| 0 <= j < before.len() ==> self.peers[j]@ == before[j],
                forall|j: int|
                    0 <= j < i ==> self.peers[before.len() + j]@ == with_next_index(
                        added[j],
                        (last_log_index + 1) as u64,
                    ),
            decreases new_peers.len() - i,
        {
            let mut peer = new_peers[i].clone();
            peer.next_index = last_log_index + 1;
            self.peers.push(peer);
            i += 1;
        }
        assert(self@ =~= before + added.map_values(next_index_map((last_log_index + 1) as u64)));
    }

    /// The position of the first peer with the id `server_id`.
    pub fn position(&self, server_id: u64) -> (r: Option<usize>)
        ensures
            match r {
                Some(i) => is_first_with_id(self@, server_id, i as int),
                None => !has_peer(self@, server_id),
            },
            r is Some <==> has_peer(self@, server_id),
            r matches Some(i) ==> i as int == first_with_id(self@, server_id),
    {
        let mut i: usize = 0;
        while i < self.peers.len()
            invariant
                i <= self.peers.len(),
                forall|j: int| 0 <= j < i ==> (#[trigger] self@[j]).id != server_id,
            decreases self.peers.len() - i,
        {
            if self.peers[i].id == server_id {
                assert(self@[i as int].id == server_id);
                assert(is_first_with_id(self@, server_id, i as int));
                return Some(i);
            }
            i += 1;
        }
        None
    }

    /// Removes, for each id of `server_ids` in order, the first peer with that id.
    pub fn remove(&mut self, server_ids: Vec<u64>)
        ensures
            final(self)@ == without_ids(old(self)@, server_ids@),
    {
        let ghost start = self@;
        let mut k: usize = 0;
        while k < server_ids.len()
            invariant
                k <= server_ids.len(),
                self@ == without_ids(start, server_ids@.take(k as int)),
            decreases server_ids.len() - k,
        {
            let ghost before = self@;
            assert(server_ids@.take(k + 1).drop_last() =~= server_ids@.take(k as int));
            match self.position(server_ids[k]) {
                Some(pos) => {
                    self.peers.remove(pos);
                    assert(self@ =~= before.remove(pos as int));
                },
                None => {},
            }
            k += 1;
        }
        assert(server_ids@.take(k as int) =~= server_ids@);
    }

    /// The peers, for changing them in place.
    pub fn peers_mut(&mut self) -> (r: &mut Vec<Peer>)
        ensures
            r.deep_view() == old(self)@,
            final(self)@ == final(r).deep_view(),
    {
        &mut self.peers
    }

    /// The first peer with the id `server_id`, for changing it in place.
    pub fn peer(&mut self, server_id: u64) -> (r: Option<&mut Peer>)
        ensures
            match r {
                Some(p) => {
                    &&& has_peer(old(self)@, server_id)
                    &&& p@ == old(self)@[first_with_id(old(self)@, server_id)]
                    &&& final(self)@ == old(self)@.update(
                        first_with_id(old(self)@, server_id),
                        final(p)@,
                    )
                },
                None => !has_peer(old(self)@, server_id) && final(self)@ == old(self)@,
            },
    {
        match self.position(server_id) {
            Some(i) => Some(&mut self.peers[i]),
            None => None,
        }
    }

    /// Replaces the peer at position `i`.
    pub fn set_peer(&mut self, i: usize, peer: Peer)
        requires
            i < old(self)@.len(),
        ensures
            final(self)@ == old(self)@.update(i as int, peer@),
    {
        let ghost before = self@;
        self.peers.set(i, peer);
        assert(self@ =~= before.update(i as int, peer@));
    }

    /// Gives every peer the membership it has in `config`.
    pub fn set_membership(&mut self, config: &Config)
        ensures
            final(self)@ == old(self)@.map_values(membership_map(config@)),
    {
        let ghost before = self@;
        let mut i: usize = 0;
        while i < self.peers.len()
            invariant
                i <= self.peers.len(),
                self.peers.len() == before.len(),
                forall|j: int| 0 <= j < i ==> self.peers[j]@ == with_membership(before[j], config@),
                forall|j: int| i <= j < before.len() ==> self.peers[j]@ == before[j],
            decreases self.peers.len() - i,
        {
            let mut peer = self.peers[i].clone();
            peer.config_state = config.get_node_state(peer.id);
            self.peers.set(i, peer);
            i += 1;
        }
        assert(self@ =~= before.map_values(membership_map(config@)));
    }

    /// Initializes every peer for a new leader: `next_index` as given, `match_index` 0.
    pub fn reset_for_leader(&mut self, next_index: u64)
        ensures
            final(self)@ == old(self)@.map_values(leader_reset_map(next_index)),
    {
        let ghost before = self@;
        let mut i: usize = 0;
        while i < self.peers.len()
            invariant
                i <= self.peers.len(),
                self.peers.len() == before.len(),
                forall|j: int| 0 <= j < i ==> self.peers[j]@ == reset_for_leader(before[j], next_index),
                forall|j: int| i <= j < before.len() ==> self.peers[j]@ == before[j],
            decreases self.peers.len() - i,
        {
            let mut peer = self.peers[i].clone();
            peer.next_index = next_index;
            peer.match_index = 0;
            self.peers.set(i, peer);
            i += 1;
        }
        assert(self@ =~= before.map_values(leader_reset_map(next_index)));
    }

    /// Keeps the peers that are among `servers` and drops the others.
    pub fn retain_servers(&mut self, servers: &Vec<ServerInfo>)
        ensures
            final(self)@ == old(self)@.filter(in_servers(servers.deep_view())),
    {
        let ghost before = self@;
        let ghost keep = in_servers(servers.deep_view());
        let mut kept: Vec<Peer> = Vec::new();
        let mut i: usize = 0;
        proof {
            reveal(Seq::filter);
            assert(before.take(0).len() == 0);
        }
        while i < self.peers.len()
            invariant
                i <= self.peers.len(),
                self@ == before,
                keep == in_servers(servers.deep_view()),
                kept.deep_view() == before.take(i as int).filter(keep),
            decreases self.peers.len() - i,
        {
            let ghost so_far = kept.deep_view();
            proof {
                reveal(Seq::filter);
                assert(before.take(i + 1).drop_last() =~= before.take(i as int));
                assert(before.take(i + 1).last() == before[i as int]);
            }
            if contains_server(servers, self.peers[i].id) {
                kept.push(self.peers[i].clone());
                assert(kept.deep_view() =~= so_far.push(before[i as int]));
            }
            i += 1;
        }
        assert(before.take(i as int) =~= before);
        self.peers = kept;
    }

    /// Appends `new_peers` as they are.
    pub fn extend(&mut self, new_peers: Vec<Peer>)
        ensures
            final(self)@ == old(self)@ + new_peers.deep_view(),
    {
        let ghost before = self@;
        let ghost added = new_peers.deep_view();
        let mut tail = new_peers;
        self.peers.append(&mut tail);
        assert(self@ =~= before + added);
    }

    /// Drops every peer.
    pub fn clear(&mut self)
        ensures
            final(self)@ == Seq::<PeerView>::empty(),
    {
        self.peers = Vec::new();
        assert(self@ =~= Seq::<PeerView>::empty());
    }

    /// The peers, for reading.
    pub fn peers(&self) -> (r: &Vec<Peer>)
        ensures
            r.deep_view() == self@,
    {
        &self.peers
    }

    /// The number of peers.
    pub fn len(&self) -> (r: usize)
        ensures
            r == self@.len(),
    {
        self.peers.len()
    }

    /// The ids of the peers, in order.
    pub fn server_ids(&self) -> (r: Vec<u64>)
        ensures
            r@ == self@.map_values(|p: PeerView| p.id),
    {
        let mut ids: Vec<u64> = Vec::new();
        let mut i: usize = 0;
        while i < self.peers.len()
            invariant
                i <= self.peers.len(),
                ids.len() == i,
                forall|j: int| 0 <= j < i ==> ids[j] == self.peers[j].id,
            decreases self.peers.len() - i,
        {
            ids.push(self.peers[i].id);
            i += 1;
        }
        assert(ids@ =~= self@.map_values(|p: PeerView| p.id));
        ids
    }

    /// Whether some peer has the id `server_id`.
    pub fn contains(&self, server_id: u64) -> (b: bool)
        ensures
            b == has_peer(self@, server_id),
    {
        self.position(server_id).is_some()
    }

    /// Withdraws every vote.
    pub fn reset_vote(&mut self)
        ensures
            final(self)@ == old(self)@.map_values(vote_reset_map()),
    {
        let ghost before = self@;
        let mut i: usize = 0;
        while i < self.peers.len()
            invariant
                i <= self.peers.len(),
                self.peers.len() == before.len(),
                forall|j: int| 0 <= j < i ==> self.peers[j]@ == without_vote(before[j]),
                forall|j: int| i <= j < before.len() ==> self.peers[j]@ == before[j],
            decreases self.peers.len() - i,
        {
            let mut peer = self.peers[i].clone();
            peer.vote_granted = false;
            self.peers.set(i, peer);
            i += 1;
        }
        assert(self@ =~= before.map_values(vote_reset_map()));
    }

    /// The match indexes of the members of one server set, the leader's first.
    fn collect_match_indexes(&self, new_set: bool, leader_member: bool, leader_last_index: u64) -> (r:
        Vec<u64>)
        ensures
            r@ == member_match_indexes(self@, new_set, leader_member, leader_last_index),
    {
        let mut out: Vec<u64> = Vec::new();
        if leader_member {
            out.push(leader_last_index);
        }
        assert(self@.take(0).len() == 0);
        assert(out@ =~= member_match_indexes(self@.take(0), new_set, leader_member, leader_last_index));
        let mut i: usize = 0;
        while i < self.peers.len()
            invariant
                i <= self.peers.len(),
                out@ == member_match_indexes(
                    self@.take(i as int),
                    new_set,
                    leader_member,
                    leader_last_index,
                ),
            decreases self.peers.len() - i,
        {
            assert(self@.take(i + 1).drop_last() =~= self@.take(i as int));
            assert(self@.take(i + 1).last() == self@[i as int]);
            let member = if new_set {
                self.peers[i].config_state.newing
            } else {
                self.peers[i].config_state.olding
            };
            if member {
                out.push(self.peers[i].match_index);
            }
            i += 1;
        }
        assert(self@.take(i as int) =~= self@);
        out
    }

    /// The highest log index that a quorum has replicated in every non-empty server
    /// set: the smaller of the quorum medians of the two sets.
    pub fn quoram_match_index(&self, leader_config_state: &ConfigState, leader_last_index: u64) -> (r:
        u64)
        ensures
            r == quorum_match_index(self@, *leader_config_state, leader_last_index),
    {
        let new_median = median_of(
            self.collect_match_indexes(true, leader_config_state.newing, leader_last_index),
        );
        let old_median = median_of(
            self.collect_match_indexes(false, leader_config_state.olding, leader_last_index),
        );
        if new_median <= old_median {
            new_median
        } else {
            old_median
        }
    }

    /// Counts the members of one server set, and those among them that granted their vote.
    fn count_votes(&self, new_set: bool) -> (r: (usize, usize))
        ensures
            r.0 == member_count(self@, new_set),
            r.1 == granted_count(self@, new_set),
            r.1 <= r.0,
    {
        let ghost member = |p: PeerView| is_member(p, new_set);
        let ghost granted = |p: PeerView| is_member(p, new_set) && p.vote_granted;
        let mut total: usize = 0;
        let mut votes: usize = 0;
        let mut i: usize = 0;
        proof {
            reveal(Seq::filter);
            assert(self@.take(0).len() == 0);
        }
        while i < self.peers.len()
            invariant
                i <= self.peers.len(),
                member == |p: PeerView| is_member(p, new_set),
                granted == |p: PeerView| is_member(p, new_set) && p.vote_granted,
                votes <= total <= i,
                total == self@.take(i as int).filter(member).len(),
                votes == self@.take(i as int).filter(granted).len(),
            decreases self.peers.len() - i,
        {
            proof {
                reveal(Seq::filter);
                assert(self@.take(i + 1).drop_last() =~= self@.take(i as int));
                assert(self@.take(i + 1).last() == self@[i as int]);
            }
            let in_set = if new_set {
                self.peers[i].config_state.newing
            } else {
                self.peers[i].config_state.olding
            };
            if in_set {
                total += 1;
                if self.peers[i].vote_granted {
                    votes += 1;
                }
            }
            i += 1;
        }
        assert(self@.take(i as int) =~= self@);
        (total, votes)
    }

    /// Whether the candidate holds a strict majority of the votes in every non-empty
    /// server set, its own vote included where it is a member.
    pub fn quorum_vote_granted(&self, leader_config_state: &ConfigState) -> (b: bool)
        ensures
            b == has_vote_quorum(self@, *leader_config_state),
    {
        let (total_new, granted_new) = self.count_votes(true);
        let (total_old, granted_old) = self.count_votes(false);
        let new_quorum = if leader_config_state.newing {
            granted_new >= total_new - granted_new
        } else {
            total_new == 0 || granted_new > total_new - granted_new
        };
        let old_quorum = if leader_config_state.olding {
            granted_old >= total_old - granted_old
        } else {
            total_old == 0 || granted_old > total_old - granted_old
        };
        new_quorum && old_quorum
    }
}

} // verus!
