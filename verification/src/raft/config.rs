//! Cluster membership: stable and joint configurations, and the protocol constants.
use std::collections::{HashMap, HashSet};
use vstd::prelude::*;
use vstd::std_specs::hash::{spec_hash_keys_iter, spec_values_iter};
use vstd::std_specs::iter::IteratorSpec;
use crate::raft::json::{from_slice_membership, json_membership, membership_json, to_vec_membership};
use crate::raft::peer::Peer;
use crate::raft::proto::{clone_servers, ServerInfo, ServerInfoView};

verus! {

/// Upper bound (exclusive) of the randomized election timeout, in milliseconds.
pub const ELECTION_TIMEOUT_MAX_MILLIS: u64 = 15000;

/// Lower bound (inclusive) of the randomized election timeout, in milliseconds.
pub const ELECTION_TIMEOUT_MIN_MILLIS: u64 = 10000;

/// Interval between two heartbeats of a leader, in milliseconds.
pub const HEARTBEAT_INTERVAL_MILLIS: u64 = 3000;

/// Interval between two checks whether a snapshot is due, in milliseconds.
pub const SNAPSHOT_INTERVAL_MILLIS: u64 = 30000;

/// A snapshot is taken once more committed entries than this are held in memory.
pub const SNAPSHOT_LOG_LENGTH_THRESHOLD: usize = 5;

/// The server id that stands for "no server".
pub const NONE_SERVER_ID: u64 = 0;

/// Size of one chunk of a streamed snapshot, in bytes.
pub const SNAPSHOT_TRUNK_SIZE: usize = 30;

/// Membership of one server in the two halves of a configuration.
#[derive(Debug, PartialEq, Eq, Clone, Copy, Structural)]
pub struct ConfigState {
    /// Member of the new (or only) server set.
    pub newing: bool,
    /// Member of the old server set of a joint configuration.
    pub olding: bool,
}

impl ConfigState {
    /// Membership in a stable configuration: in the new set only.
    pub fn new() -> (r: ConfigState)
        ensures
            r == (ConfigState { newing: true, olding: false }),
    {
        ConfigState { newing: true, olding: false }
    }
}

impl Default for ConfigState {
    fn default() -> (r: ConfigState)
        ensures
            r == (ConfigState { newing: false, olding: false }),
    {
        ConfigState { newing: false, olding: false }
    }
}

/// A cluster configuration.
///
/// It is *empty* when both sets are empty, *stable* when only `new_servers`
/// holds servers, and *joint* when both do.
#[derive(Debug, PartialEq, Eq)]
pub struct Config {
    /// Servers of the outgoing configuration; empty unless the configuration is joint.
    pub old_servers: Vec<ServerInfo>,
    /// Servers of the active (stable) or incoming (joint) configuration.
    pub new_servers: Vec<ServerInfo>,
}

/// Mathematical value of a `Config`.
pub struct ConfigView {
    pub old_servers: Seq<ServerInfoView>,
    pub new_servers: Seq<ServerInfoView>,
}

impl View for Config {
    type V = ConfigView;

    open spec fn view(&self) -> ConfigView {
        ConfigView {
            old_servers: self.old_servers.deep_view(),
            new_servers: self.new_servers.deep_view(),
        }
    }
}

impl DeepView for Config {
    type V = ConfigView;

    open spec fn deep_view(&self) -> ConfigView {
        self@
    }
}

impl Clone for Config {
    fn clone(&self) -> (r: Self)
        ensures
            r@ == self@,
    {
        Config {
            old_servers: clone_servers(&self.old_servers),
            new_servers: clone_servers(&self.new_servers),
        }
    }
}

/// Whether some server of `servers` has the id `id`.
pub open spec fn has_server(servers: Seq<ServerInfoView>, id: u64) -> bool {
    exists|i: int| 0 <= i < servers.len() && (#[trigger] servers[i]).server_id == id
}

/// `base` followed by those servers of `extra`, in order, whose id occurs neither in
/// `base` nor earlier in `extra`.
pub open spec fn append_distinct(base: Seq<ServerInfoView>, extra: Seq<ServerInfoView>) -> Seq<
    ServerInfoView,
>
    decreases extra.len(),
{
    if extra.len() == 0 {
        base
    } else {
        let before = append_distinct(base, extra.drop_last());
        if has_server(before, extra.last().server_id) {
            before
        } else {
            before.push(extra.last())
        }
    }
}

/// The servers of a list of peers.
pub open spec fn servers_of_peers(peers: Seq<crate::raft::peer::PeerView>) -> Seq<ServerInfoView> {
    Seq::new(
        peers.len(),
        |i: int| ServerInfoView { server_id: peers[i].id, server_addr: peers[i].addr },
    )
}

impl ConfigView {
    /// Both server sets are non-empty.
    pub open spec fn is_joint(self) -> bool {
        self.old_servers.len() > 0 && self.new_servers.len() > 0
    }

    /// Only the new server set is non-empty.
    pub open spec fn is_stable(self) -> bool {
        self.old_servers.len() == 0 && self.new_servers.len() > 0
    }

    /// Both server sets are empty.
    pub open spec fn is_empty(self) -> bool {
        self.old_servers.len() == 0 && self.new_servers.len() == 0
    }

    /// Membership of server `id` in the two sets.
    pub open spec fn node_state(self, id: u64) -> ConfigState {
        ConfigState {
            newing: has_server(self.new_servers, id),
            olding: has_server(self.old_servers, id),
        }
    }

    /// The old servers followed by the new ones.
    pub open spec fn joined(self) -> Seq<ServerInfoView> {
        self.old_servers + self.new_servers
    }

    /// Whether `id` is the id of a server of either set.
    pub open spec fn has_id(self, id: u64) -> bool {
        has_server(self.old_servers, id) || has_server(self.new_servers, id)
    }

    /// The final stable configuration that a joint configuration leads to.
    pub open spec fn finalized(self) -> ConfigView {
        ConfigView { old_servers: Seq::empty(), new_servers: self.new_servers }
    }

    /// The joint configuration that leads from this stable configuration to `target`.
    pub open spec fn transition_to(self, target: Seq<ServerInfoView>) -> ConfigView {
        ConfigView { old_servers: self.new_servers, new_servers: target }
    }
}

/// `s` is the last server of `all` with its id: the one that survives when `all`
/// is entered in order into a table keyed by id.
pub open spec fn is_last_with_id(all: Seq<ServerInfoView>, s: ServerInfoView) -> bool {
    exists|j: int|
        0 <= j < all.len() && #[trigger] all[j] == s && forall|k: int|
            j < k < all.len() ==> (#[trigger] all[k]).server_id != s.server_id
}

/// The `(id, address)` pairs of a list of servers.
pub open spec fn pairs_of_servers(servers: Seq<ServerInfoView>) -> Seq<(u64, Seq<char>)> {
    Seq::new(servers.len(), |i: int| (servers[i].server_id, servers[i].server_addr))
}

/// The servers given by a list of `(id, address)` pairs.
pub open spec fn servers_of_pairs(pairs: Seq<(u64, Seq<char>)>) -> Seq<ServerInfoView> {
    Seq::new(pairs.len(), |i: int| ServerInfoView { server_id: pairs[i].0, server_addr: pairs[i].1 })
}

/// The bytes that stand for a configuration in a log entry.
pub open spec fn encoded_config(c: ConfigView) -> Seq<u8> {
    membership_json(pairs_of_servers(c.old_servers), pairs_of_servers(c.new_servers))
}

/// The configuration that the payload of a log entry stands for, if any.
pub open spec fn decoded_config(data: Seq<u8>) -> Option<ConfigView> {
    match json_membership(data) {
        Some(lists) => Some(
            ConfigView {
                old_servers: servers_of_pairs(lists.0),
                new_servers: servers_of_pairs(lists.1),
            },
        ),
        None => None,
    }
}

/// The `(id, address)` pairs of a list of servers.
fn server_pairs(servers: &Vec<ServerInfo>) -> (r: Vec<(u64, String)>)
    ensures
        r.deep_view() == pairs_of_servers(servers.deep_view()),
{
    let mut out: Vec<(u64, String)> = Vec::new();
    let mut i: usize = 0;
    while i < servers.len()
        invariant
            i <= servers.len(),
            out.len() == i,
            forall|j: int|
                0 <= j < i ==> (#[trigger] out[j]).0 == servers[j].server_id && out[j].1@
                    == servers[j].server_addr@,
        decreases servers.len() - i,
    {
        out.push((servers[i].server_id, servers[i].server_addr.clone()));
        i += 1;
    }
    assert(out.deep_view() =~= pairs_of_servers(servers.deep_view()));
    out
}

/// The servers given by a list of `(id, address)` pairs.
fn servers_from_pairs(pairs: &Vec<(u64, String)>) -> (r: Vec<ServerInfo>)
    ensures
        r.deep_view() == servers_of_pairs(pairs.deep_view()),
{
    let mut out: Vec<ServerInfo> = Vec::new();
    let mut i: usize = 0;
    while i < pairs.len()
        invariant
            i <= pairs.len(),
            out.len() == i,
            forall|j: int|
                0 <= j < i ==> (#[trigger] out[j]).server_id == pairs[j].0 && out[j].server_addr@
                    == pairs[j].1@,
        decreases pairs.len() - i,
    {
        out.push(ServerInfo { server_id: pairs[i].0, server_addr: pairs[i].1.clone() });
        i += 1;
    }
    assert(out.deep_view() =~= servers_of_pairs(pairs.deep_view()));
    out
}

/// Whether `table` is what entering `servers` in order under their ids leaves: it
/// holds exactly their ids, and under each id the last server with it.
pub open spec fn table_holds(table: Map<u64, ServerInfo>, servers: Seq<ServerInfoView>) -> bool {
    &&& forall|id: u64| table.contains_key(id) <==> has_server(servers, id)
    &&& forall|id: u64|
        table.contains_key(id) ==> (#[trigger] table[id]).server_id == id && is_last_with_id(
            servers,
            table[id]@,
        )
}

/// Whether some server of `servers` has the id `id`.
pub fn contains_server(servers: &Vec<ServerInfo>, id: u64) -> (b: bool)
    ensures
        b == has_server(servers.deep_view(), id),
{
    let mut i: usize = 0;
    while i < servers.len()
        invariant
            i <= servers.len(),
            forall|j: int| 0 <= j < i ==> servers.deep_view()[j].server_id != id,
        decreases servers.len() - i,
    {
        if servers[i].server_id == id {
            assert(servers.deep_view()[i as int].server_id == id);
            return true;
        }
        i += 1;
    }
    false
}

/// Whether `id` occurs in `ids`.
pub fn contains_id(ids: &[u64], id: u64) -> (b: bool)
    ensures
        b == ids@.contains(id),
{
    let mut i: usize = 0;
    while i < ids.len()
        invariant
            i <= ids.len(),
            forall|j: int| 0 <= j < i ==> ids@[j] != id,
        decreases ids.len() - i,
    {
        if ids[i] == id {
            return true;
        }
        i += 1;
    }
    false
}

impl Config {
    /// The empty configuration.
    pub fn new() -> (r: Config)
        ensures
            r@.old_servers.len() == 0,
            r@.new_servers.len() == 0,
    {
        Config { old_servers: Vec::new(), new_servers: Vec::new() }
    }

    /// The stable configuration made of `initial_servers`.
    pub fn new_stable(initial_servers: Vec<ServerInfo>) -> (r: Config)
        ensures
            r@.old_servers.len() == 0,
            r@.new_servers == initial_servers.deep_view(),
            r.new_servers == initial_servers,
    {
        Config { old_servers: Vec::new(), new_servers: initial_servers }
    }

    /// The configuration that `data` encodes, or `None` where `data` encodes none.
    pub fn from_data(data: &[u8]) -> (r: Option<Config>)
        ensures
            r.deep_view() == decoded_config(data@),
    {
        match from_slice_membership(data) {
            Ok(lists) => {
                let c = Config {
                    old_servers: servers_from_pairs(&lists.0),
                    new_servers: servers_from_pairs(&lists.1),
                };
                Some(c)
            },
            Err(_) => None,
        }
    }

    /// The bytes that encode this configuration.
    pub fn to_data(&self) -> (r: Vec<u8>)
        ensures
            r@ == encoded_config(self@),
    {
        let old = server_pairs(&self.old_servers);
        let new = server_pairs(&self.new_servers);
        match to_vec_membership(&old, &new) {
            Ok(bytes) => bytes,
            Err(_) => Vec::new(),
        }
    }

    /// Adds to `new_servers` each server of `servers_to_add` whose id is not yet there.
    pub fn append_new_servers(&mut self, servers_to_add: &Vec<ServerInfo>)
        ensures
            final(self)@.new_servers == append_distinct(
                old(self)@.new_servers,
                servers_to_add.deep_view(),
            ),
            final(self)@.old_servers == old(self)@.old_servers,
    {
        let ghost extra = servers_to_add.deep_view();
        let ghost base = self@.new_servers;
        let mut i: usize = 0;
        while i < servers_to_add.len()
            invariant
                i <= servers_to_add.len(),
                extra == servers_to_add.deep_view(),
                self@.new_servers == append_distinct(base, extra.take(i as int)),
                self@.old_servers == old(self)@.old_servers,
            decreases servers_to_add.len() - i,
        {
            let ghost before = self@.new_servers;
            assert(extra.take(i + 1).drop_last() =~= extra.take(i as int));
            if !contains_server(&self.new_servers, servers_to_add[i].server_id) {
                self.new_servers.push(servers_to_add[i].clone());
                assert(self@.new_servers =~= before.push(extra[i as int]));
            }
            i += 1;
        }
        assert(extra.take(i as int) =~= extra);
    }

    /// Removes from `new_servers` every server whose id is in `removed_ids`.
    pub fn remove_new_servers(&mut self, removed_ids: &[u64])
        ensures
            final(self)@.new_servers == old(self)@.new_servers.filter(
                |s: ServerInfoView| !removed_ids@.contains(s.server_id),
            ),
            final(self)@.old_servers == old(self)@.old_servers,
    {
        let ghost keep = |s: ServerInfoView| !removed_ids@.contains(s.server_id);
        let ghost all = self@.new_servers;
        let mut kept: Vec<ServerInfo> = Vec::new();
        let mut i: usize = 0;
        while i < self.new_servers.len()
            invariant
                i <= self.new_servers.len(),
                self@ == old(self)@,
                all == self@.new_servers,
                keep == |s: ServerInfoView| !removed_ids@.contains(s.server_id),
                kept.deep_view() == all.take(i as int).filter(keep),
            decreases self.new_servers.len() - i,
        {
            let ghost before = kept.deep_view();
            proof {
                reveal(Seq::filter);
                assert(all.take(i + 1).drop_last() =~= all.take(i as int));
                assert(all.take(i + 1).last() == all[i as int]);
            }
            if !contains_id(removed_ids, self.new_servers[i].server_id) {
                kept.push(self.new_servers[i].clone());
                assert(kept.deep_view() =~= before.push(all[i as int]));
            }
            i += 1;
        }
        assert(all.take(i as int) =~= all);
        self.new_servers = kept;
    }

    /// Adds to `old_servers` the server of each peer of `peers_to_add` whose id is not yet there.
    pub fn append_old_servers(&mut self, peers_to_add: &[Peer])
        ensures
            final(self)@.old_servers == append_distinct(
                old(self)@.old_servers,
                servers_of_peers(peers_to_add.deep_view()),
            ),
            final(self)@.new_servers == old(self)@.new_servers,
    {
        let ghost extra = servers_of_peers(peers_to_add.deep_view());
        let ghost base = self@.old_servers;
        let mut i: usize = 0;
        while i < peers_to_add.len()
            invariant
                i <= peers_to_add.len(),
                extra == servers_of_peers(peers_to_add.deep_view()),
                extra.len() == peers_to_add.len(),
                self@.old_servers == append_distinct(base, extra.take(i as int)),
                self@.new_servers == old(self)@.new_servers,
            decreases peers_to_add.len() - i,
        {
            let ghost before = self@.old_servers;
            assert(extra.take(i + 1).drop_last() =~= extra.take(i as int));
            assert(extra[i as int].server_id == peers_to_add[i as int].id);
            if !contains_server(&self.old_servers, peers_to_add[i].id) {
                self.old_servers.push(
                    ServerInfo { server_id: peers_to_add[i].id, server_addr: peers_to_add[i].addr.clone() },
                );
                assert(self@.old_servers =~= before.push(extra[i as int]));
            }
            i += 1;
        }
        assert(extra.take(i as int) =~= extra);
    }

    /// Replaces `new_servers`.
    pub fn ser_new_servers(&mut self, servers: Vec<ServerInfo>)
        ensures
            final(self)@.new_servers == servers.deep_view(),
            final(self)@.old_servers == old(self)@.old_servers,
    {
        self.new_servers = servers;
    }

    /// Replaces `old_servers`.
    pub fn set_old_servers(&mut self, servers: Vec<ServerInfo>)
        ensures
            final(self)@.old_servers == servers.deep_view(),
            final(self)@.new_servers == old(self)@.new_servers,
    {
        self.old_servers = servers;
    }

    /// The stable configuration that ends the membership change of a joint configuration.
    pub fn finalize_transition(&self) -> (r: Config)
        requires
            self@.is_joint(),
        ensures
            r@ == self@.finalized(),
            r@.is_stable(),
    {
        let r = Config { old_servers: Vec::new(), new_servers: clone_servers(&self.new_servers) };
        assert(r@.old_servers =~= Seq::empty());
        r
    }

    /// The joint configuration that starts a membership change towards `target_new_servers`.
    pub fn start_transition(&self, target_new_servers: Vec<ServerInfo>) -> (r: Config)
        requires
            self@.is_stable(),
        ensures
            r@ == self@.transition_to(target_new_servers.deep_view()),
    {
        Config { old_servers: clone_servers(&self.new_servers), new_servers: target_new_servers }
    }

    /// Membership of server `node_id` in the two sets of this configuration.
    pub fn get_node_state(&self, node_id: u64) -> (r: ConfigState)
        ensures
            r == self@.node_state(node_id),
    {
        ConfigState {
            newing: contains_server(&self.new_servers, node_id),
            olding: contains_server(&self.old_servers, node_id),
        }
    }

    /// Enters `servers` into `table` in order, each under its id, so that a later
    /// server takes the place of an earlier one with the same id.
    fn enter_servers(
        table: &mut HashMap<u64, ServerInfo>,
        servers: &Vec<ServerInfo>,
        Ghost(all): Ghost<Seq<ServerInfoView>>,
        Ghost(base): Ghost<int>,
    )
        requires
            0 <= base,
            base + servers.len() <= all.len(),
            forall|i: int| 0 <= i < servers.len() ==> all[base + i] == servers.deep_view()[i],
            table_holds(old(table)@, all.take(base)),
        ensures
            table_holds(final(table)@, all.take(base + servers.len())),
    {
        broadcast use vstd::std_specs::hash::group_hash_axioms;

        let mut i: usize = 0;
        while i < servers.len()
            invariant
                i <= servers.len(),
                0 <= base,
                base + servers.len() <= all.len(),
                forall|k: int| 0 <= k < servers.len() ==> all[base + k] == servers.deep_view()[k],
                table_holds(table@, all.take(base + i)),
            decreases servers.len() - i,
        {
            let ghost before = table@;
            let ghost seen = all.take(base + i);
            let ghost now = all.take(base + i + 1);
            let ghost s = all[base + i];
            let copy = servers[i].clone();
            assert(all[base + i] == servers.deep_view()[i as int]);
            assert(servers.deep_view()[i as int] == servers[i as int]@);
            assert(copy@ == s);
            table.insert(servers[i].server_id, copy);
            proof {
                assert(now =~= seen.push(s));
                assert forall|id: u64| table@.contains_key(id) <==> has_server(now, id) by {
                    if has_server(seen, id) {
                        let j = choose|j: int| 0 <= j < seen.len() && (#[trigger] seen[j]).server_id == id;
                        assert(now[j].server_id == id);
                    }
                    if id == s.server_id {
                        assert(now[base + i].server_id == id);
                    }
                    if has_server(now, id) && id != s.server_id {
                        let j = choose|j: int| 0 <= j < now.len() && (#[trigger] now[j]).server_id == id;
                        assert(seen[j].server_id == id);
                    }
                }
                assert forall|id: u64| table@.contains_key(id) implies (#[trigger] table@[id]).server_id
                    == id && is_last_with_id(now, table@[id]@) by {
                    if id == s.server_id {
                        assert(now[base + i] == s);
                    } else {
                        let v = before[id]@;
                        let j = choose|j: int|
                            0 <= j < seen.len() && #[trigger] seen[j] == v && forall|k: int|
                                j < k < seen.len() ==> (#[trigger] seen[k]).server_id != v.server_id;
                        assert(now[j] == v);
                        assert forall|k: int| j < k < now.len() implies (#[trigger] now[k]).server_id
                            != v.server_id by {
                            if k < seen.len() {
                                assert(seen[k].server_id != v.server_id);
                            }
                        }
                    }
                }
            }
            i += 1;
        }
    }

    /// One server for every id of the configuration.
    ///
    /// Where an id occurs more than once, the server kept is the last one with that
    /// id in `old_servers` followed by `new_servers`, so the new set takes precedence.
    /// The order of the result is that in which the hash table hands them out.
    pub fn all_servers_in_config(&self) -> (r: Vec<ServerInfo>)
        ensures
            forall|i: int|
                0 <= i < r.len() ==> is_last_with_id(self@.joined(), #[trigger] r.deep_view()[i]),
            forall|i: int, j: int|
                0 <= i < j < r.len() ==> (#[trigger] r.deep_view()[i]).server_id != (
                #[trigger] r.deep_view()[j]).server_id,
            forall|id: u64| has_server(r.deep_view(), id) <==> self@.has_id(id),
    {
        broadcast use vstd::std_specs::hash::group_hash_axioms;

        let ghost all = self@.joined();
        let ghost n_old = self.old_servers.len() as int;
        let mut server_map: HashMap<u64, ServerInfo> = HashMap::new();
        assert(all.take(0).len() == 0);
        Self::enter_servers(&mut server_map, &self.old_servers, Ghost(all), Ghost(0));
        Self::enter_servers(&mut server_map, &self.new_servers, Ghost(all), Ghost(n_old));
        assert(all.take(n_old + self.new_servers.len()) =~= all);
        let ghost table = server_map@;
        let mut out: Vec<ServerInfo> = Vec::new();
        for server in it: server_map.values()
            invariant
                out.len() == it.index(),
                forall|j: int| 0 <= j < out.len() ==> (#[trigger] out[j])@ == (*it.seq()[j])@,
        {
            out.push(server.clone());
        }
        proof {
            let handed = spec_values_iter(&server_map).remaining().unref();
            assert(handed.len() == out.len());
            assert forall|j: int| 0 <= j < out.len() implies (#[trigger] out[j])@ == handed[j]@ by {}
            assert(handed.to_set() == table.values());
            assert(table.is_injective()) by {
                assert forall|x: u64, y: u64|
                    x != y && table.dom().contains(x) && table.dom().contains(
                        y,
                    ) implies #[trigger] table[x] != #[trigger] table[y] by {
                    assert(table[x].server_id == x && table[y].server_id == y);
                }
            }
            table.lemma_injective_values_len();
            handed.lemma_no_dup_set_cardinality();
            assert forall|j: int| 0 <= j < handed.len() implies table.contains_key(
                (#[trigger] handed[j]).server_id,
            ) && table[handed[j].server_id] == handed[j] by {
                assert(handed.to_set().contains(handed[j]));
                assert(table.values().contains(handed[j]));
                let k = choose|k: u64| table.dom().contains(k) && table[k] == handed[j];
                assert(table[k].server_id == k);
            }
            assert forall|i: int| 0 <= i < out.len() implies is_last_with_id(
                all,
                #[trigger] out.deep_view()[i],
            ) by {
                assert(out.deep_view()[i] == out[i]@);
                assert(table.contains_key(handed[i].server_id));
            }
            assert forall|i: int, j: int| 0 <= i < j < out.len() implies (
            #[trigger] out.deep_view()[i]).server_id != (#[trigger] out.deep_view()[j]).server_id by {
                assert(out.deep_view()[i] == out[i]@ && out.deep_view()[j] == out[j]@);
                if handed[i].server_id == handed[j].server_id {
                    assert(table[handed[i].server_id] == handed[i]);
                    assert(handed[i] == handed[j]);
                }
            }
            assert forall|id: u64| has_server(out.deep_view(), id) <==> self@.has_id(id) by {
                if has_server(out.deep_view(), id) {
                    let j = choose|j: int|
                        0 <= j < out.len() && (#[trigger] out.deep_view()[j]).server_id == id;
                    assert(out.deep_view()[j] == out[j]@);
                    assert(table.contains_key(handed[j].server_id));
                    assert(has_server(all, id));
                }
                if has_server(all, id) {
                    assert(table.contains_key(id));
                    assert(table.values().contains(table[id]));
                    assert(handed.to_set().contains(table[id]));
                    let j = choose|j: int| 0 <= j < handed.len() && handed[j] == table[id];
                    assert(out.deep_view()[j] == out[j]@);
                    assert(out.deep_view()[j].server_id == id);
                }
                assert(has_server(all, id) <==> self@.has_id(id)) by {
                    if has_server(all, id) {
                        let j = choose|j: int| 0 <= j < all.len() && (#[trigger] all[j]).server_id == id;
                        if j < n_old {
                            assert(self@.old_servers[j].server_id == id);
                        } else {
                            assert(self@.new_servers[j - n_old].server_id == id);
                        }
                    }
                    if has_server(self@.old_servers, id) {
                        let j = choose|j: int|
                            0 <= j < self@.old_servers.len() && (
                            #[trigger] self@.old_servers[j]).server_id == id;
                        assert(all[j].server_id == id);
                    }
                    if has_server(self@.new_servers, id) {
                        let j = choose|j: int|
                            0 <= j < self@.new_servers.len() && (
                            #[trigger] self@.new_servers[j]).server_id == id;
                        assert(all[n_old + j].server_id == id);
                    }
                }
            }
        }
        out
    }

    /// Enters the ids of `servers` into `ids`.
    fn enter_ids(ids: &mut HashSet<u64>, servers: &Vec<ServerInfo>)
        ensures
            forall|id: u64|
                #[trigger] final(ids)@.contains(id) <==> old(ids)@.contains(id) || has_server(
                    servers.deep_view(),
                    id,
                ),
    {
        broadcast use vstd::std_specs::hash::group_hash_axioms;

        let ghost all = servers.deep_view();
        let mut i: usize = 0;
        while i < servers.len()
            invariant
                i <= servers.len(),
                all == servers.deep_view(),
                forall|id: u64|
                    #[trigger] ids@.contains(id) <==> old(ids)@.contains(id) || has_server(
                        all.take(i as int),
                        id,
                    ),
            decreases servers.len() - i,
        {
            let ghost seen = all.take(i as int);
            let ghost now = all.take(i + 1);
            ids.insert(servers[i].server_id);
            proof {
                assert(now =~= seen.push(all[i as int]));
                assert forall|id: u64|
                    #[trigger] ids@.contains(id) <==> old(ids)@.contains(id) || has_server(
                        now,
                        id,
                    ) by {
                    if has_server(seen, id) {
                        let j = choose|j: int| 0 <= j < seen.len() && (#[trigger] seen[j]).server_id == id;
                        assert(now[j].server_id == id);
                    }
                    if id == all[i as int].server_id {
                        assert(now[i as int].server_id == id);
                    }
                    if has_server(now, id) && id != all[i as int].server_id {
                        let j = choose|j: int| 0 <= j < now.len() && (#[trigger] now[j]).server_id == id;
                        assert(seen[j].server_id == id);
                    }
                }
            }
            i += 1;
        }
        assert(all.take(i as int) =~= all);
    }

    /// The ids of the servers of the configuration, each once, in the order in
    /// which the hash table hands them out.
    pub fn all_ids_in_config(&self) -> (r: Vec<u64>)
        ensures
            r@.no_duplicates(),
            forall|id: u64| r@.contains(id) <==> self@.has_id(id),
    {
        broadcast use vstd::std_specs::hash::group_hash_axioms;

        let mut ids: HashSet<u64> = HashSet::new();
        assert(forall|id: u64| !ids@.contains(id));
        Self::enter_ids(&mut ids, &self.old_servers);
        let ghost old_ids = ids@;
        assert(forall|id: u64| old_ids.contains(id) <==> has_server(self@.old_servers, id));
        Self::enter_ids(&mut ids, &self.new_servers);
        assert forall|id: u64| ids@.contains(id) <==> self@.has_id(id) by {
            assert(ids@.contains(id) <==> old_ids.contains(id) || has_server(
                self.new_servers.deep_view(),
                id,
            ));
            assert(old_ids.contains(id) <==> has_server(self.old_servers.deep_view(), id));
        }
        let mut out: Vec<u64> = Vec::new();
        for id in it: ids.iter()
            invariant
                out@ == it.seq().take(it.index() as int).unref(),
        {
            out.push(*id);
        }
        proof {
            assert(out@ =~= spec_hash_keys_iter(&ids).remaining().unref());
            assert(out@.to_set() == ids@);
            assert forall|id: u64| out@.contains(id) <==> self@.has_id(id) by {
                assert(out@.to_set().contains(id) <==> out@.contains(id));
            }
        }
        out
    }

    /// Whether both server sets are non-empty.
    pub fn is_joint(&self) -> (b: bool)
        ensures
            b == self@.is_joint(),
    {
        self.old_servers.len() > 0 && self.new_servers.len() > 0
    }

    /// Whether only the new server set is non-empty.
    pub fn is_stable(&self) -> (b: bool)
        ensures
            b == self@.is_stable(),
    {
        self.old_servers.len() == 0 && self.new_servers.len() > 0
    }

    /// Whether both server sets are empty.
    pub fn is_empty(&self) -> (b: bool)
        ensures
            b == self@.is_empty(),
    {
        self.old_servers.len() == 0 && self.new_servers.len() == 0
    }
}

} // verus!
