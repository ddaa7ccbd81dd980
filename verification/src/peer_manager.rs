//! The peer book: the in-memory set of known peers with each one's last seen
//! address, its durable form, and the normalization between the two.

use vstd::prelude::*;

use crate::ident::{addr_canon, addr_ok, pid_canon, pid_ok, NetAddr, PeerId};
use crate::traits::PeerManagement;

verus! {

/// One known peer: its identity and, when one was observed, its last seen
/// address.
#[derive(Debug)]
struct PeerEntry {
    id: PeerId,
    addr: Option<NetAddr>,
}

/// The address slot of one entry, as text.
spec fn entry_addr_view(e: PeerEntry) -> Option<Seq<char>> {
    match e.addr {
        Some(a) => Some(a@),
        None => None,
    }
}

/// The mapping a sequence of entries denotes: identity text to optional
/// address text, later entries overriding earlier ones.
spec fn entries_map(s: Seq<PeerEntry>) -> Map<Seq<char>, Option<Seq<char>>>
    decreases s.len(),
{
    if s.len() == 0 {
        Map::empty()
    } else {
        entries_map(s.drop_last()).insert(s.last().id@, entry_addr_view(s.last()))
    }
}

/// No two entries carry the same identity.
spec fn distinct_ids(s: Seq<PeerEntry>) -> bool {
    forall|i: int, j: int|
        #![trigger s[i].id@, s[j].id@]
        0 <= i < j < s.len() ==> s[i].id@ != s[j].id@
}

/// The keys of `entries_map(s)` are exactly the identities occurring in `s`.
proof fn lemma_map_dom(s: Seq<PeerEntry>)
    ensures
        forall|q: Seq<char>|
            #[trigger] entries_map(s).dom().contains(q) <==> exists|i: int|
                0 <= i < s.len() && s[i].id@ == q,
    decreases s.len(),
{
    if s.len() == 0 {
    } else {
        lemma_map_dom(s.drop_last());
        assert forall|q: Seq<char>| #[trigger] entries_map(s).dom().contains(q) implies exists|
            i: int,
        | 0 <= i < s.len() && s[i].id@ == q by {
            if q == s.last().id@ {
                assert(s[s.len() - 1].id@ == q);
            } else {
                assert(entries_map(s.drop_last()).dom().contains(q));
                let i = choose|i: int| 0 <= i < s.drop_last().len() && s.drop_last()[i].id@ == q;
                assert(s[i].id@ == q);
            }
        }
        assert forall|q: Seq<char>| (exists|i: int| 0 <= i < s.len() && s[i].id@ == q) implies #[trigger] entries_map(
            s,
        ).dom().contains(q) by {
            let i = choose|i: int| 0 <= i < s.len() && s[i].id@ == q;
            if i < s.len() - 1 {
                assert(s.drop_last()[i].id@ == q);
                assert(entries_map(s.drop_last()).dom().contains(q));
            } else {
                assert(q == s.last().id@);
            }
        }
    }
}

/// At the last entry carrying a given identity, `entries_map` stores that
/// entry's address slot.
proof fn lemma_map_at(s: Seq<PeerEntry>, i: int)
    requires
        0 <= i < s.len(),
        forall|j: int| i < j < s.len() ==> s[j].id@ != s[i].id@,
    ensures
        entries_map(s).dom().contains(s[i].id@),
        entries_map(s)[s[i].id@] == entry_addr_view(s[i]),
    decreases s.len(),
{
    if i == s.len() - 1 {
    } else {
        assert(s.last().id@ != s[i].id@);
        assert(s.drop_last()[i] == s[i]);
        assert forall|j: int| i < j < s.drop_last().len() implies s.drop_last()[j].id@
            != s.drop_last()[i].id@ by {
            assert(s.drop_last()[j] == s[j]);
        }
        lemma_map_at(s.drop_last(), i);
    }
}

/// A duplicate-free sequence of entries denotes a mapping with one key per
/// entry.
proof fn lemma_map_count(s: Seq<PeerEntry>)
    requires
        distinct_ids(s),
    ensures
        entries_map(s).dom().finite(),
        entries_map(s).dom().len() == s.len(),
    decreases s.len(),
{
    if s.len() == 0 {
        assert(entries_map(s).dom() =~= Set::<Seq<char>>::empty());
    } else {
        let t = s.drop_last();
        assert forall|a: int, b: int|
            #![trigger t[a].id@, t[b].id@]
            0 <= a < b < t.len() implies t[a].id@ != t[b].id@ by {
            assert(t[a] == s[a]);
            assert(t[b] == s[b]);
        }
        lemma_map_count(t);
        lemma_map_dom(t);
        assert(!entries_map(t).dom().contains(s.last().id@)) by {
            if entries_map(t).dom().contains(s.last().id@) {
                let i = choose|i: int| 0 <= i < t.len() && t[i].id@ == s.last().id@;
                assert(s[i].id@ == s[s.len() - 1].id@);
            }
        }
        assert(entries_map(s).dom() =~= entries_map(t).dom().insert(s.last().id@));
    }
}

/// Removing one entry of a duplicate-free sequence removes exactly its
/// identity from the denoted mapping.
proof fn lemma_map_remove(s: Seq<PeerEntry>, i: int)
    requires
        0 <= i < s.len(),
        distinct_ids(s),
    ensures
        distinct_ids(s.remove(i)),
        !entries_map(s.remove(i)).dom().contains(s[i].id@),
        forall|p: Seq<char>|
            p != s[i].id@ ==> (#[trigger] entries_map(s.remove(i)).dom().contains(p)
                <==> entries_map(s).dom().contains(p)),
        forall|p: Seq<char>|
            p != s[i].id@ && #[trigger] entries_map(s).dom().contains(p) ==> entries_map(
                s.remove(i),
            )[p] == entries_map(s)[p],
{
    let t = s.remove(i);
    s.remove_ensures(i);
    lemma_map_dom(s);
    lemma_map_dom(t);
    assert forall|a: int, b: int|
        #![trigger t[a].id@, t[b].id@]
        0 <= a < b < t.len() implies t[a].id@ != t[b].id@ by {
        let aa: int = if a < i {
            a
        } else {
            a + 1
        };
        let bb: int = if b < i {
            b
        } else {
            b + 1
        };
        assert(t[a] == s[aa]);
        assert(t[b] == s[bb]);
    }
    assert forall|k: int| 0 <= k < t.len() implies t[k].id@ != s[i].id@ by {
        let kk: int = if k < i {
            k
        } else {
            k + 1
        };
        assert(t[k] == s[kk]);
    }
    assert forall|p: Seq<char>|
        p != s[i].id@ && #[trigger] entries_map(s).dom().contains(p) implies entries_map(t).dom().contains(
        p,
    ) && entries_map(t)[p] == entries_map(s)[p] by {
        let j = choose|j: int| 0 <= j < s.len() && s[j].id@ == p;
        let jj: int = if j < i {
            j
        } else {
            j - 1
        };
        assert(t[jj] == s[j]);
        assert forall|x: int| j < x < s.len() implies s[x].id@ != s[j].id@ by {}
        assert forall|x: int| jj < x < t.len() implies t[x].id@ != t[jj].id@ by {
            let xx: int = if x < i {
                x
            } else {
                x + 1
            };
            assert(t[x] == s[xx]);
        }
        lemma_map_at(s, j);
        lemma_map_at(t, jj);
    }
    assert forall|p: Seq<char>|
        p != s[i].id@ && #[trigger] entries_map(t).dom().contains(p) implies entries_map(
        s,
    ).dom().contains(p) by {
        let j = choose|j: int| 0 <= j < t.len() && t[j].id@ == p;
        let jj: int = if j < i {
            j
        } else {
            j + 1
        };
        assert(t[j] == s[jj]);
    }
}

/// The durable form of the peer book: peer identities as text, and an
/// identity-to-address text mapping. Individual entries may be malformed;
/// they are checked only when a book is loaded.
#[derive(Debug)]
pub struct PeerStorage {
    pub peers: Vec<String>,
    pub addresses: Vec<(String, String)>,
}

/// The mapping denoted by the peer list of a stored book, for a node with
/// local identity `local`: every well-formed identity other than the local
/// one, canonicalized, bound to no address.
pub open spec fn peers_map(peers: Seq<String>, local: Seq<char>) -> Map<
    Seq<char>,
    Option<Seq<char>>,
>
    decreases peers.len(),
{
    if peers.len() == 0 {
        Map::empty()
    } else {
        let m = peers_map(peers.drop_last(), local);
        let s = peers.last()@;
        if pid_ok(s) && pid_canon(s) != local {
            m.insert(pid_canon(s), None)
        } else {
            m
        }
    }
}

/// The mapping denoted by a stored book for a node with local identity
/// `local`: the peer list first, then each well-formed identity-address pair
/// other than the local identity, canonicalized, later pairs overriding
/// earlier ones. Malformed entries contribute nothing.
pub open spec fn storage_map(
    peers: Seq<String>,
    addresses: Seq<(String, String)>,
    local: Seq<char>,
) -> Map<Seq<char>, Option<Seq<char>>>
    decreases addresses.len(),
{
    if addresses.len() == 0 {
        peers_map(peers, local)
    } else {
        let m = storage_map(peers, addresses.drop_last(), local);
        let p = addresses.last().0@;
        let a = addresses.last().1@;
        if pid_ok(p) && addr_ok(a) && pid_canon(p) != local {
            m.insert(pid_canon(p), Some(addr_canon(a)))
        } else {
            m
        }
    }
}

/// The peer book: the set of known peer identities and each one's last seen
/// address, never including the local node's own identity. Viewed as a map
/// from identity text to optional address text.
#[derive(Debug)]
pub struct PeerManager {
    local_peer_id: PeerId,
    entries: Vec<PeerEntry>,
}

impl View for PeerManager {
    type V = Map<Seq<char>, Option<Seq<char>>>;

    closed spec fn view(&self) -> Map<Seq<char>, Option<Seq<char>>> {
        entries_map(self.entries@)
    }
}

impl PeerManager {
    /// The identity text of the local node; by the self-exclusion invariant
    /// it is never a key of the book.
    pub closed spec fn local_id(&self) -> Seq<char> {
        self.local_peer_id@
    }

    #[verifier::type_invariant]
    spec fn inv(self) -> bool {
        &&& distinct_ids(self.entries@)
        &&& forall|i: int|
            0 <= i < self.entries@.len() ==> #[trigger] self.entries@[i].id@
                != self.local_peer_id@
    }

    /// An empty book for `local_peer_id`: the state after loading when no
    /// durable data exists.
    pub fn new(local_peer_id: PeerId) -> (r: PeerManager)
        ensures
            r.local_id() == local_peer_id@,
            r@ == Map::<Seq<char>, Option<Seq<char>>>::empty(),
    {
        let r = PeerManager { local_peer_id, entries: Vec::new() };
        proof {
            assert(r@ =~= Map::<Seq<char>, Option<Seq<char>>>::empty());
        }
        r
    }

    /// The index of the entry for `peer_id`, if the book has one.
    fn find_entry(entries: &Vec<PeerEntry>, peer_id: &PeerId) -> (r: Option<usize>)
        ensures
            r matches Some(i) ==> i < entries@.len() && entries@[i as int].id@ == peer_id@,
            r is None ==> forall|j: int| 0 <= j < entries@.len() ==> entries@[j].id@ != peer_id@,
    {
        let mut i: usize = 0;
        while i < entries.len()
            invariant
                i <= entries@.len(),
                forall|j: int| 0 <= j < i ==> entries@[j].id@ != peer_id@,
            decreases entries@.len() - i,
        {
            if entries[i].id.eq(peer_id) {
                return Some(i);
            }
            i += 1;
        }
        None
    }

    /// Insert or overwrite the record for `peer_id` with `addr`, unless
    /// `peer_id` is the local node's own identity, in which case the book is
    /// unchanged (self-exclusion).
    pub fn add_peer_with_addr(&mut self, peer_id: PeerId, addr: NetAddr)
        ensures
            final(self).local_id() == old(self).local_id(),
            peer_id@ == old(self).local_id() ==> final(self)@ == old(self)@,
            peer_id@ != old(self).local_id() ==> final(self)@ == old(self)@.insert(
                peer_id@,
                Some(addr@),
            ),
            peer_id@ != old(self).local_id() ==> final(self)@.dom().contains(peer_id@)
                && final(self)@[peer_id@] == Some(addr@),
            !final(self)@.dom().contains(final(self).local_id()),
    {
        proof {
            use_type_invariant(&*self);
            lemma_map_dom(self.entries@);
        }
        if peer_id.eq(&self.local_peer_id) {
            return ;
        }
        let ghost s0 = self.entries@;
        let ghost q = peer_id@;
        let mut entries: Vec<PeerEntry> = Vec::new();
        core::mem::swap(&mut entries, &mut self.entries);
        let pos = Self::find_entry(&entries, &peer_id);
        match pos {
            Some(i) => {
                let ghost ii = i as int;
                entries.remove(i);
                proof {
                    lemma_map_remove(s0, ii);
                }
            },
            None => {},
        }
        let ghost s1 = entries@;
        entries.push(PeerEntry { id: peer_id, addr: Some(addr) });
        proof {
            assert(entries@.drop_last() =~= s1);
            assert(entries@.last().id@ == q);
            // the new sequence is duplicate-free and keeps the local
            // identity out
            assert forall|a: int, b: int|
                #![trigger entries@[a].id@, entries@[b].id@]
                0 <= a < b < entries@.len() implies entries@[a].id@ != entries@[b].id@ by {
                if b == entries@.len() - 1 {
                    if pos is None {
                        assert(entries@[a] == s1[a]);
                    } else {
                        lemma_map_dom(s1);
                        assert(entries@[a] == s1[a]);
                        assert(s1[a].id@ != q);
                    }
                } else {
                    assert(entries@[a] == s1[a]);
                    assert(entries@[b] == s1[b]);
                }
            }
            if pos is Some {
                assert(!entries_map(s1).dom().contains(q));
            } else {
                lemma_map_dom(s1);
            }
            assert(entries_map(entries@) == entries_map(s1).insert(q, Some(addr@)));
            assert(entries_map(s1).insert(q, Some(addr@)) =~= entries_map(s0).insert(
                q,
                Some(addr@),
            ));
        }
        self.entries = entries;
        proof {
            lemma_map_dom(self.entries@);
        }
    }

    /// A snapshot of all currently known peer identities: one element per
    /// known peer, in no particular order. Mutation after the snapshot is
    /// taken does not affect the returned sequence.
    pub fn get_peers(&self) -> (r: Vec<PeerId>)
        ensures
            self@.dom().finite(),
            r@.len() == self@.dom().len(),
            forall|i: int| 0 <= i < r@.len() ==> self@.dom().contains(#[trigger] r@[i]@),
            forall|i: int, j: int|
                #![trigger r@[i]@, r@[j]@]
                0 <= i < j < r@.len() ==> r@[i]@ != r@[j]@,
            forall|q: Seq<char>|
                #[trigger] self@.dom().contains(q) ==> exists|i: int|
                    0 <= i < r@.len() && r@[i]@ == q,
    {
        proof {
            use_type_invariant(&*self);
            lemma_map_dom(self.entries@);
        }
        let mut r: Vec<PeerId> = Vec::new();
        let mut i: usize = 0;
        while i < self.entries.len()
            invariant
                i <= self.entries@.len(),
                r@.len() == i,
                forall|k: int| 0 <= k < i ==> #[trigger] r@[k]@ == self.entries@[k].id@,
            decreases self.entries@.len() - i,
        {
            r.push(self.entries[i].id.duplicate());
            i += 1;
        }
        proof {
            use_type_invariant(&*self);
            lemma_map_dom(self.entries@);
            lemma_map_count(self.entries@);
            assert forall|q: Seq<char>| #[trigger] self@.dom().contains(q) implies exists|k: int|
                0 <= k < r@.len() && r@[k]@ == q by {
                let k = choose|k: int| 0 <= k < self.entries@.len() && self.entries@[k].id@ == q;
                assert(r@[k]@ == q);
            }
        }
        r
    }

    /// The last seen address of `peer_id`, if one is recorded.
    pub fn get_peer_address(&self, peer_id: &PeerId) -> (r: Option<&NetAddr>)
        ensures
            r matches Some(a) ==> self@.dom().contains(peer_id@) && self@[peer_id@] == Some(a@),
            r is None ==> !self@.dom().contains(peer_id@) || self@[peer_id@] is None,
    {
        proof {
            use_type_invariant(&*self);
            lemma_map_dom(self.entries@);
        }
        let pos = Self::find_entry(&self.entries, peer_id);
        match pos {
            Some(i) => {
                proof {
                    assert forall|j: int|
                        i < j < self.entries@.len() implies self.entries@[j].id@
                        != self.entries@[i as int].id@ by {}
                    lemma_map_at(self.entries@, i as int);
                }
                match &self.entries[i].addr {
                    Some(a) => Some(a),
                    None => None,
                }
            },
            None => None,
        }
    }

    /// Record `peer_id` with no address if the book does not know it yet;
    /// known identities and the local identity leave the book unchanged.
    fn ensure_peer(&mut self, peer_id: PeerId)
        ensures
            final(self).local_id() == old(self).local_id(),
            peer_id@ == old(self).local_id() ==> final(self)@ == old(self)@,
            peer_id@ != old(self).local_id() && old(self)@.dom().contains(peer_id@)
                ==> final(self)@ == old(self)@,
            peer_id@ != old(self).local_id() && !old(self)@.dom().contains(peer_id@)
                ==> final(self)@ == old(self)@.insert(peer_id@, None),
    {
        proof {
            use_type_invariant(&*self);
            lemma_map_dom(self.entries@);
        }
        if peer_id.eq(&self.local_peer_id) {
            return ;
        }
        let pos = Self::find_entry(&self.entries, &peer_id);
        if pos.is_some() {
            return ;
        }
        let ghost s0 = self.entries@;
        let ghost q = peer_id@;
        let mut entries: Vec<PeerEntry> = Vec::new();
        core::mem::swap(&mut entries, &mut self.entries);
        entries.push(PeerEntry { id: peer_id, addr: None });
        proof {
            assert(entries@.drop_last() =~= s0);
            assert forall|a: int, b: int|
                #![trigger entries@[a].id@, entries@[b].id@]
                0 <= a < b < entries@.len() implies entries@[a].id@ != entries@[b].id@ by {
                if b == entries@.len() - 1 {
                    assert(entries@[a] == s0[a]);
                } else {
                    assert(entries@[a] == s0[a]);
                    assert(entries@[b] == s0[b]);
                }
            }
        }
        self.entries = entries;
    }

    /// Normalize durable storage into a book for `local_peer_id`: well-formed
    /// entries are kept (identities from the peer list, identity-address
    /// pairs from the mapping), the local identity and malformed entries are
    /// skipped rather than failing the whole load.
    pub fn from_storage(local_peer_id: PeerId, storage: &PeerStorage) -> (r: PeerManager)
        ensures
            r.local_id() == local_peer_id@,
            r@ == storage_map(storage.peers@, storage.addresses@, local_peer_id@),
            !r@.dom().contains(local_peer_id@),
    {
        let ghost local_v = local_peer_id@;
        let mut pm = PeerManager::new(local_peer_id);
        proof {
            assert(storage.peers@.take(0) =~= Seq::<String>::empty());
        }
        let mut i: usize = 0;
        while i < storage.peers.len()
            invariant
                pm.local_id() == local_v,
                pm@ == peers_map(storage.peers@.take(i as int), local_v),
                forall|q: Seq<char>| #[trigger] pm@.dom().contains(q) ==> pm@[q] is None,
                i <= storage.peers@.len(),
            decreases storage.peers@.len() - i,
        {
            let ghost pre = pm@;
            let s = &storage.peers[i];
            match PeerId::parse(s.as_str()) {
                Some(pid) => {
                    let ghost pidv = pid@;
                    let ghost known = pre.dom().contains(pidv);
                    pm.ensure_peer(pid);
                    proof {
                        if pidv != local_v && known {
                            assert(pre.insert(pidv, None) =~= pre);
                        }
                    }
                },
                None => {},
            }
            proof {
                assert(storage.peers@.take(i as int + 1).drop_last() =~= storage.peers@.take(
                    i as int,
                ));
                assert(storage.peers@.take(i as int + 1).last() == storage.peers@[i as int]);
            }
            i += 1;
        }
        proof {
            assert(storage.peers@.take(storage.peers@.len() as int) =~= storage.peers@);
            assert(storage.addresses@.take(0) =~= Seq::<(String, String)>::empty());
        }
        let mut j: usize = 0;
        while j < storage.addresses.len()
            invariant
                pm.local_id() == local_v,
                pm@ == storage_map(storage.peers@, storage.addresses@.take(j as int), local_v),
                j <= storage.addresses@.len(),
            decreases storage.addresses@.len() - j,
        {
            let pair = &storage.addresses[j];
            match PeerId::parse(pair.0.as_str()) {
                Some(pid) => {
                    match NetAddr::parse(pair.1.as_str()) {
                        Some(na) => {
                            pm.add_peer_with_addr(pid, na);
                        },
                        None => {},
                    }
                },
                None => {},
            }
            proof {
                assert(storage.addresses@.take(j as int + 1).drop_last() =~= storage.addresses@.take(
                    j as int,
                ));
                assert(storage.addresses@.take(j as int + 1).last() == storage.addresses@[j as int]);
            }
            j += 1;
        }
        proof {
            assert(storage.addresses@.take(storage.addresses@.len() as int)
                =~= storage.addresses@);
            use_type_invariant(&pm);
            lemma_map_dom(pm.entries@);
        }
        pm
    }

    /// Denormalize the book into its durable form: every known identity as
    /// text, and one identity-address text pair per recorded address. The
    /// result denotes exactly this book, so loading it back for the same
    /// local identity reproduces the book.
    pub fn to_storage(&self) -> (r: PeerStorage)
        ensures
            storage_map(r.peers@, r.addresses@, self.local_id()) == self@,
    {
        proof {
            use_type_invariant(&*self);
            lemma_map_dom(self.entries@);
        }
        let ghost s = self.entries@;
        let ghost local_v = self.local_id();
        let mut peers: Vec<String> = Vec::new();
        proof {
            assert(peers_map(peers@, local_v) =~= Map::<Seq<char>, Option<Seq<char>>>::empty());
        }
        let mut i: usize = 0;
        while i < self.entries.len()
            invariant
                i <= s.len(),
                s == self.entries@,
                local_v == self.local_id(),
                forall|q: Seq<char>|
                    #[trigger] peers_map(peers@, local_v).dom().contains(q) <==> exists|k: int|
                        0 <= k < i && s[k].id@ == q,
                forall|q: Seq<char>|
                    #[trigger] peers_map(peers@, local_v).dom().contains(q) ==> peers_map(
                        peers@,
                        local_v,
                    )[q] is None,
            decreases s.len() - i,
        {
            proof {
                use_type_invariant(&*self);
            }
            let ghost p0 = peers@;
            let t = self.entries[i].id.to_base58();
            peers.push(t);
            proof {
                assert(peers@.drop_last() =~= p0);
                assert(peers@.last()@ == s[i as int].id@);
                let m0 = peers_map(p0, local_v);
                let m1 = peers_map(peers@, local_v);
                assert(m1 == m0.insert(s[i as int].id@, None));
                assert forall|q: Seq<char>| #[trigger] m1.dom().contains(q) implies exists|k: int|
                    0 <= k < i + 1 && s[k].id@ == q by {
                    if q == s[i as int].id@ {
                        assert(s[i as int].id@ == q);
                    } else {
                        assert(m0.dom().contains(q));
                        let k = choose|k: int| 0 <= k < i && s[k].id@ == q;
                        assert(0 <= k < i + 1 && s[k].id@ == q);
                    }
                }
                assert forall|q: Seq<char>|
                    (exists|k: int| 0 <= k < i + 1 && s[k].id@ == q) implies #[trigger] m1.dom().contains(
                    q,
                ) by {
                    let k = choose|k: int| 0 <= k < i + 1 && s[k].id@ == q;
                    if k < i {
                        assert(m0.dom().contains(q));
                    }
                }
                assert forall|q: Seq<char>| #[trigger] m1.dom().contains(q) implies m1[q] is None by {
                    if q != s[i as int].id@ {
                        assert(m0.dom().contains(q));
                        assert(m0[q] is None);
                    }
                }
            }
            i += 1;
        }
        let ghost pv = peers@;
        let mut addresses: Vec<(String, String)> = Vec::new();
        proof {
            let mb = storage_map(pv, addresses@, local_v);
            assert(mb == peers_map(pv, local_v));
            assert forall|k: int| 0 <= k < s.len() implies mb[#[trigger] s[k].id@] is None by {
                assert(0 <= k < s.len() && s[k].id@ == s[k].id@);
                assert(mb.dom().contains(s[k].id@));
            }
        }
        let mut j: usize = 0;
        while j < self.entries.len()
            invariant
                j <= s.len(),
                s == self.entries@,
                local_v == self.local_id(),
                pv == peers@,
                forall|q: Seq<char>|
                    #[trigger] storage_map(pv, addresses@, local_v).dom().contains(q) <==> exists|
                        k: int,
                    | 0 <= k < s.len() && s[k].id@ == q,
                forall|k: int|
                    0 <= k < j ==> storage_map(pv, addresses@, local_v)[#[trigger] s[k].id@]
                        == entry_addr_view(s[k]),
                forall|k: int|
                    j <= k < s.len() ==> storage_map(pv, addresses@, local_v)[#[trigger] s[k].id@] is None,
            decreases s.len() - j,
        {
            proof {
                use_type_invariant(&*self);
            }
            let ghost a0 = addresses@;
            let e = &self.entries[j];
            match &e.addr {
                Some(a) => {
                    let it = e.id.to_base58();
                    let at = a.to_text();
                    addresses.push((it, at));
                    proof {
                        assert(addresses@.drop_last() =~= a0);
                        assert(addresses@.last().0@ == s[j as int].id@);
                        assert(addresses@.last().1@ == entry_addr_view(s[j as int])->0);
                        let m0 = storage_map(pv, a0, local_v);
                        let m1 = storage_map(pv, addresses@, local_v);
                        let qj = s[j as int].id@;
                        assert(m1 == m0.insert(qj, entry_addr_view(s[j as int])));
                        assert forall|q: Seq<char>| #[trigger] m1.dom().contains(q) implies exists|
                            k: int,
                        | 0 <= k < s.len() && s[k].id@ == q by {
                            if q == qj {
                                assert(s[j as int].id@ == q);
                            } else {
                                assert(m0.dom().contains(q));
                            }
                        }
                        assert forall|q: Seq<char>|
                            (exists|k: int| 0 <= k < s.len() && s[k].id@ == q) implies #[trigger] m1.dom().contains(
                            q,
                        ) by {
                            assert(m0.dom().contains(q));
                        }
                        assert forall|k: int| 0 <= k < j + 1 implies m1[#[trigger] s[k].id@]
                            == entry_addr_view(s[k]) by {
                            if k < j {
                                assert(s[k].id@ != qj);
                            }
                        }
                        assert forall|k: int| j + 1 <= k < s.len() implies m1[#[trigger] s[k].id@] is None by {
                            assert(s[k].id@ != qj);
                        }
                    }
                },
                None => {},
            }
            j += 1;
        }
        let r = PeerStorage { peers, addresses };
        proof {
            let m = storage_map(r.peers@, r.addresses@, local_v);
            assert forall|q: Seq<char>| #[trigger] m.dom().contains(q) implies entries_map(
                s,
            ).dom().contains(q) && m[q] == entries_map(s)[q] by {
                let k = choose|k: int| 0 <= k < s.len() && s[k].id@ == q;
                assert forall|x: int| k < x < s.len() implies s[x].id@ != s[k].id@ by {}
                lemma_map_at(s, k);
            }
            assert forall|q: Seq<char>| #[trigger] entries_map(s).dom().contains(q) implies m.dom().contains(
                q,
            ) by {}
            assert(m =~= entries_map(s));
        }
        r
    }

    /// Round-trip law: persisting the book and loading the result back for
    /// the same local identity yields a book with an identical peer set and
    /// address mapping, whatever order the entries were inserted in.
    pub fn reload(&self) -> (r: PeerManager)
        ensures
            r.local_id() == self.local_id(),
            r@ == self@,
            !self@.dom().contains(self.local_id()),
    {
        let storage = self.to_storage();
        PeerManager::from_storage(self.local_peer_id.duplicate(), &storage)
    }
}

impl PeerManagement for PeerManager {
    fn get_peers(&self) -> Vec<PeerId> {
        PeerManager::get_peers(self)
    }

    fn add_peer_with_addr(&mut self, peer_id: PeerId, addr: NetAddr) {
        PeerManager::add_peer_with_addr(self, peer_id, addr)
    }
}

/// A peer identity together with addresses it has been seen at.
#[derive(Debug)]
pub struct PeerInfo {
    pub peer_id: PeerId,
    pub addresses: Vec<NetAddr>,
}

} // verus!
