use crate::peer::{PeerId, PeerMap};
use vstd::prelude::*;

verus! {

/// The count that a map gives a peer, zero when it has none (what
/// `entry(peer).or_insert(0)` reads).
pub open spec fn count_or_zero(m: Map<Seq<u8>, u32>, peer: Seq<u8>) -> int {
    if m.contains_key(peer) {
        m[peer] as int
    } else {
        0
    }
}

/// The bounty map after one more bounty for `peer`.
pub open spec fn bounty_increased(m: Map<Seq<u8>, u32>, peer: Seq<u8>) -> Map<Seq<u8>, u32> {
    m.insert(peer, (count_or_zero(m, peer) + 1) as u32)
}

/// The bounty map after one bounty less for `peer`.
pub open spec fn bounty_decreased(m: Map<Seq<u8>, u32>, peer: Seq<u8>) -> Map<Seq<u8>, u32> {
    m.insert(peer, (count_or_zero(m, peer) - 1) as u32)
}

/// How many bounties each peer has.
#[derive(Debug)]
pub struct BountyList {
    pub list: PeerMap<u32>,
}

impl BountyList {
    /// One more bounty for `peer` (a peer without an entry starts at zero).
    pub fn increase_bounty(&mut self, peer: PeerId)
        requires
            count_or_zero(old(self).list@, peer@) < u32::MAX,
        ensures
            final(self).list@ == bounty_increased(old(self).list@, peer@),
    {
        let x: u32 = match self.list.get(&peer) {
            Some(c) => *c,
            None => 0,
        };
        self.list.insert(peer, x + 1);
    }

    /// One bounty less for `peer`, which must have one.
    pub fn decrease_bounty(&mut self, peer: PeerId)
        requires
            count_or_zero(old(self).list@, peer@) > 0,
        ensures
            final(self).list@ == bounty_decreased(old(self).list@, peer@),
    {
        let x: u32 = match self.list.get(&peer) {
            Some(c) => *c,
            None => 0,
        };
        self.list.insert(peer, x - 1);
    }

    /// The peer that the next bounty goes to: a random one.
    pub fn get_bounty() -> (p: PeerId)
        ensures
            p@.len() == 34,
            p@[0] == 0,
            p@[1] == 32,
    {
        PeerId::random()
    }
}

/// Which peers are online.
#[derive(Debug)]
pub struct OnlineList {
    pub list: PeerMap<bool>,
}

impl OnlineList {
    /// Records whether `peer` is online.
    pub fn update(&mut self, peer: PeerId, online: bool)
        ensures
            final(self).list@ == old(self).list@.insert(peer@, online),
    {
        self.list.insert(peer, online);
    }
}

/// The peers a node asks for the chain, in the order they were added.
#[derive(Debug)]
pub struct FriendsList {
    list: Vec<PeerId>,
}

impl View for FriendsList {
    type V = Seq<Seq<u8>>;

    closed spec fn view(&self) -> Seq<Seq<u8>> {
        self.list@.map_values(|p: PeerId| p@)
    }
}

impl FriendsList {
    /// A friends list holding `list`, in that order.
    pub fn new(list: Vec<PeerId>) -> (f: FriendsList)
        ensures
            f@ == list@.map_values(|p: PeerId| p@),
    {
        FriendsList { list }
    }

    /// The friends, in order.
    pub fn list(&self) -> (r: &Vec<PeerId>)
        ensures
            r@.map_values(|p: PeerId| p@) == self@,
    {
        &self.list
    }

    /// Adds `peer` at the end of the list.
    pub fn add_friend(&mut self, peer: PeerId)
        ensures
            final(self)@ == old(self)@.push(peer@),
    {
        self.list.push(peer);
        assert(self@ =~= old(self)@.push(peer@));
    }

    /// Removes the first occurrence of `peer` and returns it, or returns
    /// `None` and changes nothing when `peer` is not a friend.
    pub fn remove_friend(&mut self, peer: PeerId) -> (r: Option<PeerId>)
        ensures
            match r {
                Some(q) => q@ == peer@ && exists|i: int|
                    0 <= i < old(self)@.len() && old(self)@[i] == peer@ && (forall|j: int|
                        0 <= j < i ==> #[trigger] old(self)@[j] != peer@) && final(self)@ == old(
                        self,
                    )@.remove(i),
                None => !old(self)@.contains(peer@) && final(self)@ == old(self)@,
            },
    {
        let mut i: usize = 0;
        while i < self.list.len()
            invariant
                i <= self.list@.len(),
                self@ == old(self)@,
                forall|j: int| 0 <= j < i ==> #[trigger] self.list@[j]@ != peer@,
            decreases self.list@.len() - i,
        {
            if self.list[i].equals(&peer) {
                let ghost before = self@;
                self.list.remove(i);
                proof {
                    assert(self@ =~= before.remove(i as int));
                    assert forall|j: int| 0 <= j < i implies #[trigger] before[j] != peer@ by {
                        assert(before[j] == old(self).list@[j]@);
                    }
                    assert(before[i as int] == peer@);
                }
                return Some(peer);
            }
            i = i + 1;
        }
        proof {
            assert forall|j: int| 0 <= j < old(self)@.len() implies #[trigger] old(self)@[j] != peer@ by {
                assert(old(self)@[j] == self.list@[j]@);
            }
        }
        None
    }
}

/// An account of the ledger: its balance, of a type that the library only
/// carries, and the nonce that its next transaction must carry.
#[derive(Clone, Copy, Debug)]
pub struct AccountInfo<B> {
    pub value: B,
    pub nonce: u32,
}

impl<B> AccountInfo<B> {
    /// A new account with the balance `value`; its first transaction has
    /// nonce 1.
    pub fn fresh(value: B) -> (a: AccountInfo<B>)
        ensures
            a.value == value,
            a.nonce == 1,
    {
        AccountInfo { value, nonce: 1 }
    }

    /// Moves the account on to its next nonce.
    pub fn nonce_inc(&mut self)
        requires
            old(self).nonce < u32::MAX,
        ensures
            final(self).nonce == old(self).nonce + 1,
            final(self).value == old(self).value,
    {
        self.nonce = self.nonce + 1;
    }
}

/// The account that a map gives a peer, or `fresh` when it has none (what
/// `entry(peer).or_insert(fresh)` reads).
pub open spec fn account_or<B>(m: Map<Seq<u8>, AccountInfo<B>>, peer: Seq<u8>, fresh: AccountInfo<B>) -> AccountInfo<B> {
    if m.contains_key(peer) {
        m[peer]
    } else {
        fresh
    }
}

/// The accounts of the ledger, by peer.
#[derive(Debug)]
pub struct ValueList<B> {
    pub list: PeerMap<AccountInfo<B>>,
}

impl<B: Copy> ValueList<B> {
    /// The account of `peer`, if it has one.
    pub fn account(&self, peer: &PeerId) -> (r: Option<&AccountInfo<B>>)
        ensures
            r == (if self.list@.contains_key(peer@) {
                Some(&self.list@[peer@])
            } else {
                None
            }),
    {
        self.list.get(peer)
    }

    /// The account of `peer`, or `fresh` when it has none.
    pub fn entry(&self, peer: &PeerId, fresh: AccountInfo<B>) -> (a: AccountInfo<B>)
        ensures
            a == account_or(self.list@, peer@, fresh),
    {
        match self.list.get(peer) {
            Some(a) => *a,
            None => fresh,
        }
    }

    /// Moves `peer` on to its next nonce (an account without an entry
    /// starts as `fresh`).
    pub fn nonce_increment(&mut self, peer: PeerId, fresh: AccountInfo<B>)
        requires
            account_or(old(self).list@, peer@, fresh).nonce < u32::MAX,
        ensures
            final(self).list@ == old(self).list@.insert(
                peer@,
                AccountInfo {
                    value: account_or(old(self).list@, peer@, fresh).value,
                    nonce: (account_or(old(self).list@, peer@, fresh).nonce + 1) as u32,
                },
            ),
    {
        let mut x = self.entry(&peer, fresh);
        x.nonce_inc();
        self.list.insert(peer, x);
    }
}

/// The key a player pressed.
#[derive(Debug)]
pub struct PlayerInput {
    pub key: u8,
}

/// A player's move, as sent to the other peers.
#[derive(Debug)]
pub struct NetworkEvent {
    pub player: PeerId,
    pub input: PlayerInput,
}

/// Marks the player that this node controls.
pub struct LocalPlayer;

/// The peer that controls a player.
pub struct PlayerID {
    pub id: PeerId,
}

impl Default for PlayerID {
    /// A player with a fresh random peer identity.
    fn default() -> (p: PlayerID)
        ensures
            p.id@.len() == 34,
            p.id@[0] == 0,
            p.id@[1] == 32,
    {
        PlayerID { id: PeerId::random() }
    }
}

/// Raising a peer's bounty and lowering it again leaves the peer at the
/// count it had (an entry of zero for a peer that had none).
pub proof fn law_bounty_increase_then_decrease(m: Map<Seq<u8>, u32>, peer: Seq<u8>)
    requires
        count_or_zero(m, peer) < u32::MAX,
    ensures
        bounty_decreased(bounty_increased(m, peer), peer) == m.insert(peer, count_or_zero(m, peer) as u32),
        m.contains_key(peer) ==> bounty_decreased(bounty_increased(m, peer), peer) == m,
{
    assert(bounty_decreased(bounty_increased(m, peer), peer) =~= m.insert(peer, count_or_zero(m, peer) as u32));
    if m.contains_key(peer) {
        assert(m.insert(peer, count_or_zero(m, peer) as u32) =~= m);
    }
}

/// Adding a peer that is not yet a friend and removing it again gives back
/// the list it started from, and the removal reports the peer.
pub proof fn law_add_then_remove_friend(friends: Seq<Seq<u8>>, peer: Seq<u8>)
    requires
        !friends.contains(peer),
    ensures
        friends.push(peer).remove(friends.len() as int) == friends,
        forall|i: int|
            0 <= i < friends.push(peer).len() && friends.push(peer)[i] == peer ==> i == friends.len(),
{
    assert(friends.push(peer).remove(friends.len() as int) =~= friends);
    assert forall|i: int| 0 <= i < friends.push(peer).len() && friends.push(peer)[i] == peer implies i
        == friends.len() by {
        if i < friends.len() {
            assert(friends[i] == friends.push(peer)[i]);
        }
    }
}

} // verus!
