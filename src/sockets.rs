//! The socket-ownership snapshot: which process owns each open local socket.
use vstd::prelude::*;

use crate::network::{LocalSocket, RawConnection};

verus! {

/// The map that results from writing the pairs of `s` in order, a later pair
/// overwriting an earlier one with the same socket.
pub open spec fn pairs_map(s: Seq<(LocalSocket, Seq<char>)>) -> Map<LocalSocket, Seq<char>>
    decreases s.len(),
{
    if s.len() == 0 {
        Map::empty()
    } else {
        pairs_map(s.drop_last()).insert(s.last().0, s.last().1)
    }
}

/// The (socket, process name) pair that a raw connection contributes.
pub open spec fn pair_of(c: RawConnection) -> (LocalSocket, Seq<char>) {
    (c.local_socket(), c.process_name@)
}

/// The snapshot of a sequence of raw connections: each one's local socket
/// mapped to its process name, the later record winning where two share a
/// socket.
pub open spec fn snapshot_of(conns: Seq<RawConnection>) -> Map<LocalSocket, Seq<char>> {
    pairs_map(conns.map_values(|c: RawConnection| pair_of(c)))
}

/// No socket occurs twice among the pairs of `s`.
pub open spec fn sockets_unique(s: Seq<(LocalSocket, Seq<char>)>) -> bool {
    forall|i: int, j: int| 0 <= i < j < s.len() ==> s[i].0 != s[j].0
}

/// A socket is a key of `pairs_map(s)` exactly when some pair of `s` holds it.
proof fn lemma_pairs_map_dom(s: Seq<(LocalSocket, Seq<char>)>, k: LocalSocket)
    ensures
        pairs_map(s).contains_key(k) <==> exists|i: int| 0 <= i < s.len() && s[i].0 == k,
    decreases s.len(),
{
    if s.len() > 0 {
        let t = s.drop_last();
        lemma_pairs_map_dom(t, k);
        if pairs_map(t).contains_key(k) {
            let i = choose|i: int| 0 <= i < t.len() && t[i].0 == k;
            assert(s[i].0 == k);
        }
        if exists|i: int| 0 <= i < s.len() && s[i].0 == k {
            let i = choose|i: int| 0 <= i < s.len() && s[i].0 == k;
            if i < t.len() {
                assert(t[i].0 == k);
            }
        }
    }
}

/// The value of `pairs_map(s)` at the socket of its `i`-th pair is that pair's
/// name, where no later pair holds the same socket.
proof fn lemma_pairs_map_last(s: Seq<(LocalSocket, Seq<char>)>, i: int)
    requires
        0 <= i < s.len(),
        forall|j: int| i < j < s.len() ==> s[j].0 != s[i].0,
    ensures
        pairs_map(s).contains_key(s[i].0),
        pairs_map(s)[s[i].0] == s[i].1,
    decreases s.len(),
{
    if i < s.len() - 1 {
        let t = s.drop_last();
        assert forall|j: int| i < j < t.len() implies t[j].0 != t[i].0 by {
            assert(t[j] == s[j]);
        }
        lemma_pairs_map_last(t, i);
    }
}

/// With unique sockets, `pairs_map(s)` has one entry per pair.
proof fn lemma_pairs_map_len(s: Seq<(LocalSocket, Seq<char>)>)
    requires
        sockets_unique(s),
    ensures
        pairs_map(s).dom().finite(),
        pairs_map(s).len() == s.len(),
    decreases s.len(),
{
    if s.len() > 0 {
        let t = s.drop_last();
        assert(sockets_unique(t));
        lemma_pairs_map_len(t);
        lemma_pairs_map_dom(t, s.last().0);
        if pairs_map(t).contains_key(s.last().0) {
            let i = choose|i: int| 0 <= i < t.len() && t[i].0 == s.last().0;
            assert(s[i].0 == s[s.len() - 1].0);
        }
    }
}

/// The ownership snapshot: a map from local socket to the name of the process
/// that owns it.
pub struct OpenSockets {
    entries: Vec<(LocalSocket, String)>,
}

impl OpenSockets {
    /// The entries as (socket, process name) pairs.
    closed spec fn pairs(&self) -> Seq<(LocalSocket, Seq<char>)> {
        self.entries@.map_values(|e: (LocalSocket, String)| (e.0, e.1@))
    }

    /// No socket is held by two entries.
    pub closed spec fn wf(&self) -> bool {
        sockets_unique(self.pairs())
    }

    /// An empty snapshot.
    pub fn new() -> (r: OpenSockets)
        ensures
            r.wf(),
            r@ == Map::<LocalSocket, Seq<char>>::empty(),
    {
        let r = OpenSockets { entries: Vec::new() };
        assert(r.pairs() =~= Seq::<(LocalSocket, Seq<char>)>::empty());
        r
    }

    /// The index of the entry that holds `socket`, if any.
    fn find(&self, socket: &LocalSocket) -> (r: Option<usize>)
        ensures
            match r {
                Some(i) => i < self.entries@.len() && self.entries@[i as int].0 == *socket,
                None => forall|i: int|
                    0 <= i < self.entries@.len() ==> self.entries@[i].0 != *socket,
            },
    {
        let mut i: usize = 0;
        while i < self.entries.len()
            invariant
                0 <= i <= self.entries@.len(),
                forall|j: int| 0 <= j < i ==> self.entries@[j].0 != *socket,
            decreases self.entries@.len() - i,
        {
            if self.entries[i].0 == *socket {
                return Some(i);
            }
            i = i + 1;
        }
        None
    }

    /// Records that `socket` is owned by `process_name`, replacing any name
    /// recorded for it before.
    pub fn insert(&mut self, socket: LocalSocket, process_name: String)
        requires
            old(self).wf(),
        ensures
            final(self).wf(),
            final(self)@ == old(self)@.insert(socket, process_name@),
    {
        let ghost old_pairs = self.pairs();
        let ghost name = process_name@;
        match self.find(&socket) {
            Some(i) => {
                self.entries.set(i, (socket, process_name));
                proof {
                    let new_pairs = self.pairs();
                    assert(new_pairs =~= old_pairs.update(i as int, (socket, name)));
                    assert forall|a: int, b: int| 0 <= a < b < new_pairs.len() implies new_pairs[a].0
                        != new_pairs[b].0 by {
                        assert(old_pairs[a].0 != old_pairs[b].0);
                    }
                    assert forall|k: LocalSocket|
                        #[trigger] pairs_map(new_pairs).contains_key(k)
                            == pairs_map(old_pairs).insert(socket, name).contains_key(k) by {
                        lemma_pairs_map_dom(new_pairs, k);
                        lemma_pairs_map_dom(old_pairs, k);
                        if k != socket {
                            if pairs_map(old_pairs).contains_key(k) {
                                let j = choose|j: int| 0 <= j < old_pairs.len() && old_pairs[j].0 == k;
                                assert(new_pairs[j].0 == k);
                            }
                            if pairs_map(new_pairs).contains_key(k) {
                                let j = choose|j: int| 0 <= j < new_pairs.len() && new_pairs[j].0 == k;
                                assert(old_pairs[j].0 == k);
                            }
                        } else {
                            assert(new_pairs[i as int].0 == k);
                        }
                    }
                    assert forall|k: LocalSocket| #[trigger]
                        pairs_map(new_pairs).contains_key(k) implies pairs_map(new_pairs)[k]
                        == pairs_map(old_pairs).insert(socket, name)[k] by {
                        lemma_pairs_map_dom(new_pairs, k);
                        let j = choose|j: int| 0 <= j < new_pairs.len() && new_pairs[j].0 == k;
                        lemma_pairs_map_last(new_pairs, j);
                        if j != i {
                            assert(new_pairs[j] == old_pairs[j]);
                            assert(new_pairs[i as int].0 == socket);
                            assert(k != socket);
                            lemma_pairs_map_last(old_pairs, j);
                        } else {
                            assert(new_pairs[j] == (socket, name));
                        }
                    }
                    assert(pairs_map(new_pairs) =~= pairs_map(old_pairs).insert(socket, name));
                }
            },
            None => {
                self.entries.push((socket, process_name));
                proof {
                    let new_pairs = self.pairs();
                    assert(new_pairs.drop_last() =~= old_pairs);
                    assert forall|a: int, b: int| 0 <= a < b < new_pairs.len() implies new_pairs[a].0
                        != new_pairs[b].0 by {
                        if b == old_pairs.len() {
                            assert(old(self).entries@[a].0 != socket);
                        } else {
                            assert(old_pairs[a].0 != old_pairs[b].0);
                        }
                    }
                }
            },
        }
    }

    /// The name of the process that owns `socket`, if the snapshot holds it.
    pub fn get(&self, socket: &LocalSocket) -> (r: Option<&String>)
        requires
            self.wf(),
        ensures
            match r {
                Some(name) => self@.contains_key(*socket) && name@ == self@[*socket],
                None => !self@.contains_key(*socket),
            },
    {
        proof {
            lemma_pairs_map_dom(self.pairs(), *socket);
        }
        match self.find(socket) {
            Some(i) => {
                proof {
                    lemma_pairs_map_last(self.pairs(), i as int);
                }
                Some(&self.entries[i].1)
            },
            None => {
                proof {
                    assert forall|j: int| 0 <= j < self.pairs().len() implies self.pairs()[j].0
                        != *socket by {
                        assert(self.entries@[j].0 != *socket);
                    }
                }
                None
            },
        }
    }

    /// Whether the snapshot holds `socket`.
    pub fn contains(&self, socket: &LocalSocket) -> (r: bool)
        requires
            self.wf(),
        ensures
            r == self@.contains_key(*socket),
    {
        self.get(socket).is_some()
    }

    /// The number of sockets in the snapshot.
    pub fn len(&self) -> (r: usize)
        requires
            self.wf(),
        ensures
            r == self@.len(),
    {
        proof {
            lemma_pairs_map_len(self.pairs());
        }
        self.entries.len()
    }

    /// Whether the snapshot holds no socket.
    pub fn is_empty(&self) -> (r: bool)
        requires
            self.wf(),
        ensures
            r == (self@.len() == 0),
    {
        self.len() == 0
    }
}

impl View for OpenSockets {
    type V = Map<LocalSocket, Seq<char>>;

    closed spec fn view(&self) -> Map<LocalSocket, Seq<char>> {
        pairs_map(self.pairs())
    }
}

/// Builds the ownership snapshot of `connections`: each record's local socket
/// mapped to a copy of its process name, a later record overwriting an earlier
/// one with the same socket.
pub fn get_open_sockets(connections: &Vec<RawConnection>) -> (r: OpenSockets)
    ensures
        r.wf(),
        r@ == snapshot_of(connections@),
{
    let mut open_sockets = OpenSockets::new();
    let ghost conns = connections@;
    let ghost pairs = conns.map_values(|c: RawConnection| pair_of(c));
    let mut i: usize = 0;
    while i < connections.len()
        invariant
            0 <= i <= conns.len(),
            conns == connections@,
            pairs == conns.map_values(|c: RawConnection| pair_of(c)),
            open_sockets.wf(),
            open_sockets@ == pairs_map(pairs.take(i as int)),
        decreases conns.len() - i,
    {
        let raw_connection = &connections[i];
        let socket = LocalSocket {
            ip: raw_connection.get_local_ip(),
            port: raw_connection.get_local_port(),
            protocol: raw_connection.get_protocol(),
        };
        open_sockets.insert(socket, raw_connection.process_name.clone());
        proof {
            assert(pairs.take(i as int + 1).drop_last() =~= pairs.take(i as int));
        }
        i = i + 1;
    }
    proof {
        assert(pairs.take(conns.len() as int) =~= pairs);
    }
    open_sockets
}

/// Every record's socket is a key of the snapshot, and nothing else is: the
/// snapshot holds exactly one entry per distinct socket of the input.
pub proof fn lemma_snapshot_keys(conns: Seq<RawConnection>, k: LocalSocket)
    ensures
        snapshot_of(conns).contains_key(k) <==> exists|i: int|
            0 <= i < conns.len() && conns[i].local_socket() == k,
{
    let pairs = conns.map_values(|c: RawConnection| pair_of(c));
    lemma_pairs_map_dom(pairs, k);
    if exists|i: int| 0 <= i < conns.len() && conns[i].local_socket() == k {
        let i = choose|i: int| 0 <= i < conns.len() && conns[i].local_socket() == k;
        assert(pairs[i].0 == k);
    }
}

/// With no socket shared by two records, the snapshot of `n` records has `n`
/// entries, each record's socket mapped to its own process name.
pub proof fn lemma_snapshot_complete(conns: Seq<RawConnection>)
    requires
        forall|i: int, j: int|
            0 <= i < j < conns.len() ==> conns[i].local_socket() != conns[j].local_socket(),
    ensures
        snapshot_of(conns).dom().finite(),
        snapshot_of(conns).len() == conns.len(),
        forall|i: int|
            0 <= i < conns.len() ==> snapshot_of(conns).contains_key(#[trigger] conns[i].local_socket())
                && snapshot_of(conns)[conns[i].local_socket()] == conns[i].process_name@,
{
    let pairs = conns.map_values(|c: RawConnection| pair_of(c));
    assert(sockets_unique(pairs)) by {
        assert forall|i: int, j: int| 0 <= i < j < pairs.len() implies pairs[i].0 != pairs[j].0 by {
            assert(conns[i].local_socket() != conns[j].local_socket());
        }
    }
    lemma_pairs_map_len(pairs);
    assert forall|i: int| 0 <= i < conns.len() implies snapshot_of(conns).contains_key(
        #[trigger] conns[i].local_socket(),
    ) && snapshot_of(conns)[conns[i].local_socket()] == conns[i].process_name@ by {
        assert(pairs[i] == pair_of(conns[i]));
        lemma_pairs_map_last(pairs, i);
    }
}

/// Where records share a socket, the snapshot maps it to the process name of
/// the last of them.
pub proof fn lemma_last_write_wins(conns: Seq<RawConnection>, i: int)
    requires
        0 <= i < conns.len(),
        forall|j: int|
            i < j < conns.len() ==> #[trigger] conns[j].local_socket() != conns[i].local_socket(),
    ensures
        snapshot_of(conns).contains_key(conns[i].local_socket()),
        snapshot_of(conns)[conns[i].local_socket()] == conns[i].process_name@,
{
    let pairs = conns.map_values(|c: RawConnection| pair_of(c));
    assert forall|j: int| i < j < pairs.len() implies pairs[j].0 != pairs[i].0 by {
        assert(conns[j].local_socket() != conns[i].local_socket());
    }
    lemma_pairs_map_last(pairs, i);
}

/// Two records with the same socket give a snapshot of one entry, holding the
/// process name of the second.
pub proof fn lemma_same_socket_collides(a: RawConnection, b: RawConnection)
    requires
        a.local_socket() == b.local_socket(),
    ensures
        snapshot_of(seq![a, b]) == map![b.local_socket() => b.process_name@],
{
    let conns = seq![a, b];
    let pairs = conns.map_values(|c: RawConnection| pair_of(c));
    let first = pairs.drop_last();
    assert(first.drop_last() =~= Seq::<(LocalSocket, Seq<char>)>::empty());
    assert(first.last() == pair_of(a));
    assert(pairs.last() == pair_of(b));
    assert(pairs_map(first) == pairs_map(first.drop_last()).insert(a.local_socket(), a.process_name@));
    assert(snapshot_of(conns) =~= map![b.local_socket() => b.process_name@]);
}

/// An empty input gives an empty snapshot.
pub proof fn lemma_empty_snapshot()
    ensures
        snapshot_of(Seq::<RawConnection>::empty()) == Map::<LocalSocket, Seq<char>>::empty(),
{
    let pairs = Seq::<RawConnection>::empty().map_values(|c: RawConnection| pair_of(c));
    assert(pairs =~= Seq::<(LocalSocket, Seq<char>)>::empty());
}

/// Two sockets built from the same address, port and protocol are equal.
pub proof fn lemma_socket_equality(a: LocalSocket, b: LocalSocket)
    requires
        a.ip == b.ip,
        a.port == b.port,
        a.protocol == b.protocol,
    ensures
        a == b,
{
}

/// Two records that differ in protocol, or in address family, are kept as two
/// entries, each with its own process name.
pub proof fn lemma_distinct_protocols_kept(a: RawConnection, b: RawConnection)
    requires
        a.protocol != b.protocol || (a.local_ip is V4) != (b.local_ip is V4),
    ensures
        snapshot_of(seq![a, b]).len() == 2,
        snapshot_of(seq![a, b])[a.local_socket()] == a.process_name@,
        snapshot_of(seq![a, b])[b.local_socket()] == b.process_name@,
{
    let conns = seq![a, b];
    assert(conns[0].local_socket() != conns[1].local_socket());
    lemma_snapshot_complete(conns);
}

} // verus!
