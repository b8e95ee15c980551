use vstd::prelude::*;

verus! {

/// A peer's identity, held as the bytes of its multihash (what libp2p's
/// `PeerId::to_bytes` gives and `PeerId::from_bytes` reads back).
#[derive(Clone, Debug)]
pub struct PeerId {
    pub bytes: Vec<u8>,
}

impl View for PeerId {
    type V = Seq<u8>;

    open spec fn view(&self) -> Seq<u8> {
        self.bytes@
    }
}

/// Calls `libp2p::PeerId::random` and returns the peer's bytes. Trusted:
/// libp2p wraps 32 random bytes in an identity multihash, so the bytes are
/// the code `0`, the length `32` and the 32 random bytes. Which bytes come
/// out is chance and is not stated.
#[verifier::external_body]
fn random_peer_bytes() -> (bytes: Vec<u8>)
    ensures
        bytes@.len() == 34,
        bytes@[0] == 0,
        bytes@[1] == 32,
{
    libp2p::PeerId::random().to_bytes()
}

impl PeerId {
    /// A fresh random peer identity (an identity multihash of 32 random bytes).
    pub fn random() -> (p: PeerId)
        ensures
            p@.len() == 34,
            p@[0] == 0,
            p@[1] == 32,
    {
        PeerId { bytes: random_peer_bytes() }
    }

    /// Whether two identities have the same bytes.
    pub fn equals(&self, other: &PeerId) -> (r: bool)
        ensures
            r == (self@ == other@),
    {
        let n = self.bytes.len();
        if n != other.bytes.len() {
            return false;
        }
        let mut i: usize = 0;
        while i < n
            invariant
                n == self@.len(),
                n == other@.len(),
                i <= n,
                forall|j: int| 0 <= j < i ==> self@[j] == other@[j],
            decreases n - i,
        {
            if self.bytes[i] != other.bytes[i] {
                return false;
            }
            i = i + 1;
        }
        assert(self@ =~= other@);
        true
    }

    /// A copy of this identity.
    pub fn duplicate(&self) -> (p: PeerId)
        ensures
            p@ == self@,
    {
        let mut bytes: Vec<u8> = Vec::new();
        let mut i: usize = 0;
        while i < self.bytes.len()
            invariant
                i <= self@.len(),
                bytes@ == self@.take(i as int),
            decreases self@.len() - i,
        {
            bytes.push(self.bytes[i]);
            assert(bytes@ =~= self@.take(i + 1));
            i = i + 1;
        }
        assert(self@.take(i as int) =~= self@);
        PeerId { bytes }
    }
}

/// The map that a list of entries stands for, later entries winning.
pub open spec fn map_of<V>(s: Seq<(PeerId, V)>) -> Map<Seq<u8>, V>
    decreases s.len(),
{
    if s.len() == 0 {
        Map::empty()
    } else {
        map_of(s.drop_last()).insert(s.last().0@, s.last().1)
    }
}

/// No two entries have the same peer.
pub open spec fn keys_distinct<V>(s: Seq<(PeerId, V)>) -> bool {
    forall|i: int, j: int|
        0 <= i < s.len() && 0 <= j < s.len() && i != j ==> #[trigger] s[i].0@ != #[trigger] s[j].0@
}

proof fn lemma_map_of<V>(s: Seq<(PeerId, V)>)
    requires
        keys_distinct(s),
    ensures
        forall|k: Seq<u8>|
            #[trigger] map_of(s).contains_key(k) <==> exists|i: int| 0 <= i < s.len() && s[i].0@ == k,
        forall|i: int| 0 <= i < s.len() ==> map_of(s)[#[trigger] s[i].0@] == s[i].1,
        map_of(s).dom().finite(),
        map_of(s).dom().len() == s.len(),
    decreases s.len(),
{
    if s.len() > 0 {
        let t = s.drop_last();
        assert(keys_distinct(t)) by {
            assert forall|i: int, j: int|
                0 <= i < t.len() && 0 <= j < t.len() && i != j implies #[trigger] t[i].0@
                != #[trigger] t[j].0@ by {
                assert(t[i] == s[i] && t[j] == s[j]);
            }
        }
        lemma_map_of(t);
        let last = s.last();
        assert forall|k: Seq<u8>| #[trigger]
            map_of(s).contains_key(k) <==> exists|i: int| 0 <= i < s.len() && s[i].0@ == k by {
            if map_of(s).contains_key(k) && k != last.0@ {
                let i = choose|i: int| 0 <= i < t.len() && t[i].0@ == k;
                assert(s[i] == t[i]);
            }
            if exists|i: int| 0 <= i < s.len() && s[i].0@ == k {
                let i = choose|i: int| 0 <= i < s.len() && s[i].0@ == k;
                if i < s.len() - 1 {
                    assert(t[i] == s[i]);
                }
            }
        }
        assert forall|i: int| 0 <= i < s.len() implies map_of(s)[#[trigger] s[i].0@] == s[i].1 by {
            if i < s.len() - 1 {
                assert(t[i] == s[i]);
                assert(s[i].0@ != s[s.len() - 1].0@);
            }
        }
        assert(!map_of(t).contains_key(last.0@)) by {
            if map_of(t).contains_key(last.0@) {
                let i = choose|i: int| 0 <= i < t.len() && t[i].0@ == last.0@;
                assert(t[i] == s[i]);
                assert(s[i].0@ != s[s.len() - 1].0@);
            }
        }
    }
}

/// A map from peers to values, held as a list of entries in which no peer
/// occurs twice.
#[derive(Debug)]
pub struct PeerMap<V> {
    entries: Vec<(PeerId, V)>,
}

impl<V> View for PeerMap<V> {
    type V = Map<Seq<u8>, V>;

    closed spec fn view(&self) -> Map<Seq<u8>, V> {
        map_of(self.entries@)
    }
}

impl<V> PeerMap<V> {
    #[verifier::type_invariant]
    spec fn wf(self) -> bool {
        keys_distinct(self.entries@)
    }

    /// An empty map.
    pub fn new() -> (m: PeerMap<V>)
        ensures
            m@ == Map::<Seq<u8>, V>::empty(),
    {
        PeerMap { entries: Vec::new() }
    }

    /// Number of peers in the map.
    pub fn len(&self) -> (n: usize)
        ensures
            self@.dom().finite(),
            n == self@.dom().len(),
    {
        proof {
            use_type_invariant(self);
            lemma_map_of(self.entries@);
        }
        self.entries.len()
    }

    fn find(&self, peer: &PeerId) -> (r: Option<usize>)
        ensures
            match r {
                Some(i) => i < self.entries@.len() && self.entries@[i as int].0@ == peer@,
                None => forall|i: int|
                    0 <= i < self.entries@.len() ==> #[trigger] self.entries@[i].0@ != peer@,
            },
    {
        let mut i: usize = 0;
        while i < self.entries.len()
            invariant
                i <= self.entries@.len(),
                forall|j: int| 0 <= j < i ==> #[trigger] self.entries@[j].0@ != peer@,
            decreases self.entries@.len() - i,
        {
            if self.entries[i].0.equals(peer) {
                return Some(i);
            }
            i = i + 1;
        }
        None
    }

    /// The value of `peer`, if the map has one.
    pub fn get(&self, peer: &PeerId) -> (r: Option<&V>)
        ensures
            r == (if self@.contains_key(peer@) {
                Some(&self@[peer@])
            } else {
                None
            }),
    {
        proof {
            use_type_invariant(self);
            lemma_map_of(self.entries@);
        }
        match self.find(peer) {
            Some(i) => Some(&self.entries[i].1),
            None => None,
        }
    }

    /// Whether `peer` has a value in the map.
    pub fn contains(&self, peer: &PeerId) -> (r: bool)
        ensures
            r == self@.contains_key(peer@),
    {
        proof {
            use_type_invariant(self);
            lemma_map_of(self.entries@);
        }
        self.find(peer).is_some()
    }

    /// Sets the value of `peer`, replacing the one it had.
    pub fn insert(&mut self, peer: PeerId, value: V)
        ensures
            final(self)@ == old(self)@.insert(peer@, value),
    {
        proof {
            use_type_invariant(&*self);
            lemma_map_of(self.entries@);
        }
        let ghost old_entries = self.entries@;
        let ghost k = peer@;
        match self.find(&peer) {
            Some(i) => {
                let ghost new_entries = old_entries.update(i as int, (peer, value));
                assert(keys_distinct(new_entries)) by {
                    assert forall|a: int, b: int|
                        0 <= a < new_entries.len() && 0 <= b < new_entries.len() && a != b implies
                        #[trigger] new_entries[a].0@ != #[trigger] new_entries[b].0@ by {
                        if a != i as int && b != i as int {
                            assert(old_entries[a].0@ != old_entries[b].0@);
                        } else if a == i as int {
                            assert(old_entries[i as int].0@ != old_entries[b].0@);
                        } else {
                            assert(old_entries[a].0@ != old_entries[i as int].0@);
                        }
                    }
                }
                let mut entries: Vec<(PeerId, V)> = Vec::new();
                std::mem::swap(&mut entries, &mut self.entries);
                entries.set(i, (peer, value));
                self.entries = entries;
                proof {
                    assert(self.entries@ == new_entries);
                    lemma_map_of(new_entries);
                    assert(map_of(new_entries) =~= map_of(old_entries).insert(k, value)) by {
                        assert forall|x: Seq<u8>| #[trigger]
                            map_of(new_entries).contains_key(x) implies map_of(
                            old_entries,
                        ).insert(k, value).contains_key(x) by {
                            let j = choose|j: int| 0 <= j < new_entries.len() && new_entries[j].0@ == x;
                            if j != i as int {
                                assert(old_entries[j].0@ == x);
                            }
                        }
                        assert forall|x: Seq<u8>| #[trigger]
                            map_of(old_entries).insert(k, value).contains_key(x) implies map_of(
                            new_entries,
                        ).contains_key(x) by {
                            if x != k {
                                let j = choose|j: int| 0 <= j < old_entries.len() && old_entries[j].0@ == x;
                                assert(new_entries[j].0@ == x);
                            } else {
                                assert(new_entries[i as int].0@ == x);
                            }
                        }
                        assert forall|x: Seq<u8>| #[trigger]
                            map_of(new_entries).contains_key(x) implies map_of(new_entries)[x]
                            == map_of(old_entries).insert(k, value)[x] by {
                            let j = choose|j: int| 0 <= j < new_entries.len() && new_entries[j].0@ == x;
                            if j != i as int {
                                assert(old_entries[j].0@ == x);
                                assert(new_entries[j] == old_entries[j]);
                            }
                        }
                    }
                }
            },
            None => {
                let ghost new_entries = old_entries.push((peer, value));
                assert(keys_distinct(new_entries)) by {
                    assert forall|a: int, b: int|
                        0 <= a < new_entries.len() && 0 <= b < new_entries.len() && a != b implies
                        #[trigger] new_entries[a].0@ != #[trigger] new_entries[b].0@ by {
                        if a < old_entries.len() && b < old_entries.len() {
                            assert(old_entries[a].0@ != old_entries[b].0@);
                        } else if a < old_entries.len() {
                            assert(old_entries[a].0@ != k);
                        } else {
                            assert(old_entries[b].0@ != k);
                        }
                    }
                }
                let mut entries: Vec<(PeerId, V)> = Vec::new();
                std::mem::swap(&mut entries, &mut self.entries);
                entries.push((peer, value));
                self.entries = entries;
                proof {
                    assert(self.entries@ == new_entries);
                    assert(new_entries.drop_last() =~= old_entries);
                }
            },
        }
    }

    /// The entries of the map, each peer once, in no stated order.
    pub fn entries(&self) -> (r: &[(PeerId, V)])
        ensures
            keys_distinct(r@),
            map_of(r@) == self@,
            forall|i: int| 0 <= i < r@.len() ==> self@.contains_key(#[trigger] r@[i].0@) && self@[r@[i].0@] == r@[i].1,
            forall|k: Seq<u8>| #[trigger] self@.contains_key(k) ==> exists|i: int| 0 <= i < r@.len() && r@[i].0@ == k,
    {
        proof {
            use_type_invariant(self);
            lemma_map_of(self.entries@);
        }
        self.entries.as_slice()
    }
}

/// Reading a peer map after a write gives back what was written for that
/// peer and what was there before for every other peer.
pub proof fn law_peer_map_read_after_write<V>(m: Map<Seq<u8>, V>, peer: Seq<u8>, value: V, other: Seq<u8>)
    ensures
        m.insert(peer, value).contains_key(peer),
        m.insert(peer, value)[peer] == value,
        other != peer ==> (m.insert(peer, value).contains_key(other) == m.contains_key(other)),
        other != peer && m.contains_key(other) ==> m.insert(peer, value)[other] == m[other],
{
}

} // verus!
