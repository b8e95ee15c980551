use crate::util::{is_most_frequent, occurrences, position_of, top_frequent};
use vstd::prelude::*;

verus! {

/// What a node keeps of the chain.
pub enum NodeType {
    FullNode,
    LightNode,
    Client,
}

/// What a node stores of a block that it fetched while catching up.
pub enum StoreMode {
    /// The serialized block, under its hash.
    Block,
    /// Only the hash, under itself.
    HashOnly,
    /// Nothing.
    Nothing,
}

/// The storing policy of a node type.
pub open spec fn store_mode_of(node: NodeType) -> StoreMode {
    match node {
        NodeType::FullNode => StoreMode::Block,
        NodeType::LightNode => StoreMode::HashOnly,
        NodeType::Client => StoreMode::Nothing,
    }
}

/// Where the friends' answers about their last block leave this node.
pub enum BootStatus {
    /// Some friends have not answered yet.
    Waiting,
    /// The friends agree with this node's last block: listen for new blocks.
    UpToDate,
    /// The friends agree on another last block, of this hash: fetch it.
    Behind(String),
}

/// What to do next after a fetched block was taken into the chain.
pub enum NextStep {
    /// Fetch the block of this hash (the previous one).
    Fetch(String),
    /// The chain meets this node's own: ask the friends for their state.
    AskFriends,
}

/// The decision on one block fetched from the record store.
pub enum ChainStep {
    /// Not the block that was asked for.
    Ignore,
    /// The block that was asked for.
    Take { adopt_as_last: bool, store: StoreMode, next: NextStep },
}

/// The strings of `s` that are not empty, in order.
pub open spec fn nonempty_only(s: Seq<String>) -> Seq<String>
    decreases s.len(),
{
    if s.len() == 0 {
        Seq::empty()
    } else {
        let rest = nonempty_only(s.drop_last());
        if s.last()@.len() > 0 {
            rest.push(s.last())
        } else {
            rest
        }
    }
}

/// Each node type has its own way of storing a fetched block: a full node
/// keeps the block, a light node only its hash, and a client nothing.
pub proof fn law_store_modes(node: NodeType)
    ensures
        store_mode_of(node) is Block <==> node is FullNode,
        store_mode_of(node) is HashOnly <==> node is LightNode,
        store_mode_of(node) is Nothing <==> node is Client,
{
}

/// Dropping the empty answers keeps every other answer, in order: the
/// result is the list filtered by non-emptiness, so each non-empty string
/// is counted as often as in the answers, and the empty one not at all.
pub proof fn law_nonempty_only_keeps_answers(s: Seq<String>)
    ensures
        nonempty_only(s) == s.filter(|x: String| x@.len() > 0),
        forall|x: Seq<char>| x.len() > 0 ==> #[trigger] occurrences(nonempty_only(s), x) == occurrences(s, x),
        occurrences(nonempty_only(s), Seq::<char>::empty()) == 0,
    decreases s.len(),
{
    reveal(Seq::filter);
    if s.len() > 0 {
        let t = s.drop_last();
        let l = s.last();
        law_nonempty_only_keeps_answers(t);
        let rest = nonempty_only(t);
        assert(rest.push(l).drop_last() =~= rest);
        assert(rest.push(l).last() == l);
        assert forall|x: Seq<char>| x.len() > 0 implies #[trigger] occurrences(nonempty_only(s), x)
            == occurrences(s, x) by {
            assert(occurrences(rest, x) == occurrences(t, x));
        }
        assert(occurrences(rest, Seq::<char>::empty()) == 0);
    }
}

/// Whether some string of `s` is not empty.
pub open spec fn has_nonempty(s: Seq<String>) -> bool {
    exists|i: int| 0 <= i < s.len() && #[trigger] s[i]@.len() > 0
}

/// What the friends' answers decide, once all are in: the most frequent
/// non-empty answer, compared with this node's last block.
pub open spec fn settled(answers: Seq<String>, my_last: Seq<char>, status: BootStatus) -> bool {
    match status {
        BootStatus::Waiting => false,
        BootStatus::UpToDate => is_most_frequent(nonempty_only(answers), my_last),
        BootStatus::Behind(h) => is_most_frequent(nonempty_only(answers), h@) && h@ != my_last,
    }
}

proof fn lemma_nonempty_only(s: Seq<String>)
    ensures
        forall|i: int| 0 <= i < nonempty_only(s).len() ==> #[trigger] nonempty_only(s)[i]@.len() > 0,
        has_nonempty(s) ==> nonempty_only(s).len() > 0,
    decreases s.len(),
{
    if s.len() > 0 {
        let t = s.drop_last();
        lemma_nonempty_only(t);
        if has_nonempty(s) && s.last()@.len() == 0 {
            let i = choose|i: int| 0 <= i < s.len() && #[trigger] s[i]@.len() > 0;
            assert(t[i] == s[i]);
        }
        let r = nonempty_only(s);
        assert forall|i: int| 0 <= i < r.len() implies #[trigger] r[i]@.len() > 0 by {
            if s.last()@.len() > 0 && i == r.len() - 1 {
            } else {
                assert(r[i] == nonempty_only(t)[i]);
            }
        }
    }
}

/// The non-empty strings of `v`, in order.
fn retain_nonempty(v: &Vec<String>) -> (r: Vec<String>)
    ensures
        r@ == nonempty_only(v@),
{
    let mut r: Vec<String> = Vec::new();
    let mut i: usize = 0;
    while i < v.len()
        invariant
            i <= v@.len(),
            r@ == nonempty_only(v@.take(i as int)),
        decreases v@.len() - i,
    {
        proof {
            assert(v@.take(i + 1).drop_last() =~= v@.take(i as int));
        }
        if v[i].as_str().is_empty() == false {
            r.push(v[i].clone());
        }
        i = i + 1;
    }
    assert(v@.take(i as int) =~= v@);
    r
}

/// Whether two strings have the same characters.
fn str_is(a: &str, b: &str) -> (r: bool)
    ensures
        r == (a@ == b@),
{
    a.to_owned() == b.to_owned()
}

/// The state a node keeps while it catches up with its friends' chain:
/// the hash it fetches now, the hash where its own chain ends, and the
/// friends' answers so far.
pub struct BootHelper<B, A> {
    pub temp_last: String,
    pub old_last: String,
    pub friends_last: Vec<String>,
    pub friends_last_block: Vec<B>,
    pub friends_accnts: Vec<A>,
}

impl<B, A> BootHelper<B, A> {
    /// No answers yet, nothing fetched.
    pub fn new() -> (h: BootHelper<B, A>)
        ensures
            h.temp_last@.len() == 0,
            h.old_last@.len() == 0,
            h.friends_last@.len() == 0,
            h.friends_last_block@.len() == 0,
            h.friends_accnts@.len() == 0,
    {
        BootHelper {
            temp_last: String::new(),
            old_last: String::new(),
            friends_last: Vec::new(),
            friends_last_block: Vec::new(),
            friends_accnts: Vec::new(),
        }
    }

    /// Counts one more answer; once all `friends` have answered, keeps the
    /// non-empty answers and decides on their most frequent one.
    fn settle(&mut self, answer: String, friends: usize, my_last: &String) -> (status: BootStatus)
        requires
            old(self).friends_last@.push(answer).len() == friends ==> has_nonempty(
                old(self).friends_last@.push(answer),
            ),
        ensures
            final(self).temp_last == old(self).temp_last,
            final(self).old_last == old(self).old_last,
            final(self).friends_last_block == old(self).friends_last_block,
            final(self).friends_accnts == old(self).friends_accnts,
            old(self).friends_last@.len() + 1 != friends ==> status is Waiting
                && final(self).friends_last@ == old(self).friends_last@.push(answer),
            old(self).friends_last@.len() + 1 == friends ==> settled(
                old(self).friends_last@.push(answer),
                my_last@,
                status,
            ) && final(self).friends_last@ == nonempty_only(old(self).friends_last@.push(answer)),
    {
        let ghost answers = self.friends_last@.push(answer);
        self.friends_last.push(answer);
        if self.friends_last.len() != friends {
            return BootStatus::Waiting;
        }
        let kept = retain_nonempty(&self.friends_last);
        proof {
            lemma_nonempty_only(answers);
        }
        let freq = top_frequent(&kept);
        self.friends_last = kept;
        if freq == *my_last {
            BootStatus::UpToDate
        } else {
            BootStatus::Behind(freq)
        }
    }

    /// A friend answered with its last block (of hash `hash`) and its
    /// accounts: both are kept, and the answer is counted (see `settle`).
    pub fn on_response(&mut self, hash: String, block: B, accounts: A, friends: usize, my_last: &String) -> (status: BootStatus)
        requires
            old(self).friends_last@.push(hash).len() == friends ==> has_nonempty(
                old(self).friends_last@.push(hash),
            ),
        ensures
            final(self).temp_last == old(self).temp_last,
            final(self).old_last == old(self).old_last,
            final(self).friends_last_block@ == old(self).friends_last_block@.push(block),
            final(self).friends_accnts@ == old(self).friends_accnts@.push(accounts),
            old(self).friends_last@.len() + 1 != friends ==> status is Waiting
                && final(self).friends_last@ == old(self).friends_last@.push(hash),
            old(self).friends_last@.len() + 1 == friends ==> settled(
                old(self).friends_last@.push(hash),
                my_last@,
                status,
            ) && final(self).friends_last@ == nonempty_only(old(self).friends_last@.push(hash)),
    {
        self.friends_last_block.push(block);
        self.friends_accnts.push(accounts);
        self.settle(hash, friends, my_last)
    }

    /// A friend could not be reached: an empty answer is counted (see `settle`).
    pub fn on_failure(&mut self, friends: usize, my_last: &String) -> (status: BootStatus)
        requires
            old(self).friends_last@.len() + 1 == friends ==> has_nonempty(old(self).friends_last@),
        ensures
            final(self).temp_last == old(self).temp_last,
            final(self).old_last == old(self).old_last,
            final(self).friends_last_block == old(self).friends_last_block,
            final(self).friends_accnts == old(self).friends_accnts,
            old(self).friends_last@.len() + 1 != friends ==> status is Waiting
                && final(self).friends_last@.len() == old(self).friends_last@.len() + 1
                && final(self).friends_last@.last()@.len() == 0
                && final(self).friends_last@.drop_last() == old(self).friends_last@,
            old(self).friends_last@.len() + 1 == friends ==> settled(
                old(self).friends_last@,
                my_last@,
                status,
            ) && final(self).friends_last@ == nonempty_only(old(self).friends_last@),
    {
        let empty = String::new();
        let ghost answers = self.friends_last@.push(empty);
        proof {
            assert(answers.drop_last() =~= old(self).friends_last@);
            if has_nonempty(old(self).friends_last@) {
                let i = choose|i: int|
                    0 <= i < old(self).friends_last@.len() && #[trigger] old(self).friends_last@[i]@.len() > 0;
                assert(answers[i] == old(self).friends_last@[i]);
            }
            assert(nonempty_only(answers) == nonempty_only(old(self).friends_last@));
        }
        let status = self.settle(empty, friends, my_last);
        proof {
            if old(self).friends_last@.len() + 1 != friends {
                assert(self.friends_last@.drop_last() =~= old(self).friends_last@);
            }
        }
        status
    }

    /// Starts fetching the chain back from the block of hash `target`,
    /// down to the block of hash `own_last` where this node's chain ends.
    pub fn start_fetch(&mut self, target: String, own_last: String)
        ensures
            final(self).temp_last == target,
            final(self).old_last == own_last,
            final(self).friends_last@ == seq![target],
            final(self).friends_last_block == old(self).friends_last_block,
            final(self).friends_accnts == old(self).friends_accnts,
    {
        let mut v: Vec<String> = Vec::new();
        v.push(target.clone());
        self.temp_last = target;
        self.old_last = own_last;
        self.friends_last = v;
        assert(self.friends_last@ =~= seq![self.temp_last]);
    }

    /// A block of hash `hash` whose previous block has hash `prev_hash` came
    /// from the record store. It is taken only if it is the block being
    /// fetched; then it becomes the last block when the friends agreed on
    /// it, it is stored as `node` stores blocks, and the fetch goes on with
    /// the previous block until it reaches this node's own chain.
    pub fn on_record(&mut self, hash: &String, prev_hash: &String, node: &NodeType) -> (step: ChainStep)
        requires
            old(self).temp_last@ == hash@ ==> old(self).friends_last@.len() > 0,
        ensures
            final(self).old_last == old(self).old_last,
            final(self).friends_last == old(self).friends_last,
            final(self).friends_last_block == old(self).friends_last_block,
            final(self).friends_accnts == old(self).friends_accnts,
            old(self).temp_last@ != hash@ ==> step is Ignore && final(self).temp_last == old(self).temp_last,
            old(self).temp_last@ == hash@ ==> (step matches ChainStep::Take { adopt_as_last, store, next } && adopt_as_last
                == (old(self).friends_last@[0]@ == hash@) && store == store_mode_of(*node) && (store is Block
                <==> *node is FullNode) && (store is HashOnly <==> *node is LightNode) && (store is Nothing
                <==> *node is Client) && (if prev_hash@
                != old(self).old_last@ {
                next matches NextStep::Fetch(h) && h@ == prev_hash@ && final(self).temp_last@ == prev_hash@
            } else {
                next is AskFriends && final(self).temp_last == old(self).temp_last
            })),
    {
        if !(self.temp_last == *hash) {
            return ChainStep::Ignore;
        }
        let adopt_as_last = self.friends_last[0] == *hash;
        let store = match node {
            NodeType::FullNode => StoreMode::Block,
            NodeType::LightNode => StoreMode::HashOnly,
            NodeType::Client => StoreMode::Nothing,
        };
        let next = if !(*prev_hash == self.old_last) {
            self.temp_last = prev_hash.clone();
            NextStep::Fetch(prev_hash.clone())
        } else {
            NextStep::AskFriends
        };
        ChainStep::Take { adopt_as_last, store, next }
    }
}

/// Which friend's answer to take once the friends agree on the block of
/// hash `target`: the first block of that hash and, among the accounts the
/// friends sent, the first whose hash is that block's world hash.
/// `block_hashes[i]` and `block_worlds[i]` are the hash and the world hash
/// of the `i`-th block received.
pub fn adoption(
    block_hashes: &[String],
    block_worlds: &[String],
    accounts_hashes: &[String],
    target: &String,
) -> (r: Option<(usize, Option<usize>)>)
    requires
        block_worlds@.len() == block_hashes@.len(),
    ensures
        match r {
            None => forall|i: int| 0 <= i < block_hashes@.len() ==> #[trigger] block_hashes@[i]@ != target@,
            Some((i, a)) => {
                &&& i < block_hashes@.len()
                &&& block_hashes@[i as int]@ == target@
                &&& forall|j: int| 0 <= j < i ==> #[trigger] block_hashes@[j]@ != target@
                &&& match a {
                    None => forall|k: int|
                        0 <= k < accounts_hashes@.len() ==> #[trigger] accounts_hashes@[k]@
                            != block_worlds@[i as int]@,
                    Some(k) => k < accounts_hashes@.len() && accounts_hashes@[k as int]@
                        == block_worlds@[i as int]@ && forall|l: int|
                        0 <= l < k ==> #[trigger] accounts_hashes@[l]@ != block_worlds@[i as int]@,
                }
            },
        },
{
    match position_of(block_hashes, target) {
        None => None,
        Some(i) => Some((i, position_of(accounts_hashes, &block_worlds[i]))),
    }
}

/// The gossip topics the node listens to.
pub enum GossipTopic {
    Block,
    Transaction,
    Move,
    Other,
}

/// Which topic a gossip message came on, by the topic's name.
pub fn classify_topic(topic: &str) -> (t: GossipTopic)
    ensures
        topic@ == "Block"@ <==> t is Block,
        topic@ == "Transaction"@ <==> t is Transaction,
        topic@ == "move"@ <==> t is Move,
{
    proof {
        reveal_strlit("Block");
        reveal_strlit("Transaction");
        reveal_strlit("move");
        assert("Block"@.len() == 5 && "Transaction"@.len() == 11 && "move"@.len() == 4);
    }
    if str_is(topic, "Block") {
        GossipTopic::Block
    } else if str_is(topic, "Transaction") {
        GossipTopic::Transaction
    } else if str_is(topic, "move") {
        GossipTopic::Move
    } else {
        GossipTopic::Other
    }
}

/// Whether a peer announces the node's own DHT protocol, `/insight`.
pub fn speaks_insight(protocols: &[String]) -> (r: bool)
    ensures
        r == exists|i: int| 0 <= i < protocols@.len() && #[trigger] protocols@[i]@ == "/insight"@,
{
    let mut i: usize = 0;
    while i < protocols.len()
        invariant
            i <= protocols@.len(),
            forall|j: int| 0 <= j < i ==> #[trigger] protocols@[j]@ != "/insight"@,
        decreases protocols@.len() - i,
    {
        if str_is(protocols[i].as_str(), "/insight") {
            return true;
        }
        i = i + 1;
    }
    false
}

} // verus!
