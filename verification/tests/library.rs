use insight::boot::{adoption, classify_topic, speaks_insight, BootHelper, BootStatus, ChainStep, GossipTopic, NextStep, NodeType, StoreMode};
use insight::frame::{frame, read_request, unframe, FrameError};
use insight::game::{aim, take_hit, Attempt, BoolReleased, Donde, IsReleased, MouseResource, Replay, HIT_DAMAGE};
use insight::hashing::{digest_hex, to_hex_upper};
use insight::keys::gen_key;
use insight::mempool::{MemPool, BLOCK_TX_LIMIT};
use insight::peer::{PeerId, PeerMap};
use insight::struc::{AccountInfo, BountyList, FriendsList, OnlineList, PlayerID, ValueList};
use insight::keys::{peer_of_public, verify_transaction_sig, Keypair};
use insight::util::{most_frequent, position_of, top_frequent};

fn peer(b: u8) -> PeerId {
    PeerId { bytes: vec![0, 1, b] }
}

fn strings(v: &[&str]) -> Vec<String> {
    v.iter().map(|s| s.to_string()).collect()
}

#[test]
fn most_frequent_orders_by_count_then_string() {
    let a = strings(&["b", "a", "c", "a", "b", "a"]);
    let r = most_frequent(&a, 2);
    let got: Vec<(usize, String)> = r.iter().map(|(c, s)| (*c, (*s).clone())).collect();
    assert_eq!(got, vec![(3, "a".to_string()), (2, "b".to_string())]);
}

#[test]
fn most_frequent_breaks_ties_towards_greater_string() {
    let a = strings(&["x", "y", "z"]);
    let r = most_frequent(&a, 3);
    let got: Vec<&str> = r.iter().map(|(_, s)| s.as_str()).collect();
    assert_eq!(got, vec!["z", "y", "x"]);
    assert!(r.iter().all(|(c, _)| *c == 1));
}

#[test]
fn most_frequent_with_zero_or_large_k() {
    let a = strings(&["p", "q", "p"]);
    assert!(most_frequent(&a, 0).is_empty());
    let r = most_frequent(&a, 10);
    let got: Vec<(usize, &str)> = r.iter().map(|(c, s)| (*c, s.as_str())).collect();
    assert_eq!(got, vec![(2, "p"), (1, "q")]);
    assert!(most_frequent(&[], 3).is_empty());
}

#[test]
fn digest_hex_of_abc_is_sha256() {
    assert_eq!(
        digest_hex(b"abc"),
        "BA7816BF8F01CFEA414140DE5DAE2223B00361A396177A9CB410FF61F20015AD"
    );
    assert_eq!(digest_hex(b"").len(), 64);
}

#[test]
fn hex_is_upper_case_two_digits_per_byte() {
    assert_eq!(to_hex_upper(&[0x00, 0x0f, 0xa0, 0xff]), "000FA0FF");
    assert_eq!(to_hex_upper(&[]), "");
}

#[test]
fn random_peer_is_identity_multihash() {
    let p = PeerId::random();
    assert_eq!(p.bytes.len(), 34);
    assert_eq!(p.bytes[0], 0);
    assert_eq!(p.bytes[1], 32);
    let q = PeerId::random();
    assert!(!p.equals(&q));
    assert!(p.equals(&p.duplicate()));
    assert_eq!(PlayerID::default().id.bytes.len(), 34);
}

#[test]
fn peer_map_read_gives_back_write() {
    let mut m: PeerMap<u32> = PeerMap::new();
    assert_eq!(m.len(), 0);
    m.insert(peer(1), 10);
    m.insert(peer(2), 20);
    m.insert(peer(1), 11);
    assert_eq!(m.len(), 2);
    assert_eq!(m.get(&peer(1)), Some(&11));
    assert_eq!(m.get(&peer(2)), Some(&20));
    assert_eq!(m.get(&peer(3)), None);
    assert!(m.contains(&peer(2)));
    assert_eq!(m.entries().len(), 2);
}

#[test]
fn bounty_increase_then_decrease() {
    let mut b = BountyList { list: PeerMap::new() };
    b.increase_bounty(peer(7));
    b.increase_bounty(peer(7));
    assert_eq!(b.list.get(&peer(7)), Some(&2));
    b.decrease_bounty(peer(7));
    assert_eq!(b.list.get(&peer(7)), Some(&1));
    assert_eq!(BountyList::get_bounty().bytes.len(), 34);
}

#[test]
fn online_list_update() {
    let mut o = OnlineList { list: PeerMap::new() };
    o.update(peer(1), true);
    o.update(peer(1), false);
    assert_eq!(o.list.get(&peer(1)), Some(&false));
}

#[test]
fn friends_add_and_remove() {
    let mut f = FriendsList::new(vec![peer(1), peer(2)]);
    f.add_friend(peer(3));
    assert_eq!(f.list().len(), 3);
    let removed = f.remove_friend(peer(2));
    assert!(removed.map(|p| p.equals(&peer(2))).unwrap_or(false));
    assert_eq!(f.list().len(), 2);
    assert!(f.list()[0].equals(&peer(1)));
    assert!(f.list()[1].equals(&peer(3)));
    assert!(f.remove_friend(peer(9)).is_none());
    assert_eq!(f.list().len(), 2);
}

#[test]
fn friends_remove_takes_first_occurrence() {
    let mut f = FriendsList::new(vec![peer(1), peer(2), peer(1)]);
    f.remove_friend(peer(1));
    assert!(f.list()[0].equals(&peer(2)));
    assert!(f.list()[1].equals(&peer(1)));
}

#[test]
fn mempool_is_first_in_first_out() {
    let mut m: MemPool<u32> = MemPool::new();
    m.push(1);
    m.push(2);
    assert_eq!(m.pop(), Some(1));
    assert_eq!(m.pop(), Some(2));
    assert_eq!(m.pop(), None);
}

#[test]
fn next_block_takes_accepted_in_order_and_drops_rejected() {
    let mut m: MemPool<u32> = MemPool::new();
    for i in 0..10 {
        m.push(i);
    }
    let txs = m.next_block_transactions(&|t: &u32| t % 2 == 0);
    assert_eq!(txs, vec![0, 2, 4, 6, 8]);
    assert_eq!(m.len(), 0);
}

#[test]
fn next_block_stops_at_the_limit() {
    let mut m: MemPool<usize> = MemPool::new();
    for i in 0..(BLOCK_TX_LIMIT + 5) {
        m.push(i);
    }
    let txs = m.next_block_transactions(&|_t: &usize| true);
    assert_eq!(txs.len(), BLOCK_TX_LIMIT);
    assert_eq!(m.len(), 5);
    assert_eq!(m.pop(), Some(BLOCK_TX_LIMIT));
}

#[test]
fn gen_key_from_secret_matches_libp2p() {
    let secret = "0123456789abcdef0123456789abcdef";
    let k = gen_key(Some(secret)).expect("valid secret");
    assert_eq!(k.secret().as_slice(), secret.as_bytes());
    let mut bytes = secret.as_bytes().to_vec();
    let sk = libp2p::identity::secp256k1::SecretKey::try_from_bytes(&mut bytes).unwrap();
    let kp = libp2p::identity::secp256k1::Keypair::from(sk);
    assert_eq!(k.public().as_slice(), &kp.public().to_bytes()[..]);
}

#[test]
fn gen_key_pads_short_secrets_and_refuses_bad_ones() {
    let short = "abcdefghijklmnopqrstuvwx";
    let k = gen_key(Some(short)).expect("24 bytes are accepted");
    assert_eq!(&k.secret()[..8], &[0u8; 8]);
    assert_eq!(&k.secret()[8..], short.as_bytes());
    assert!(gen_key(Some("too short")).is_none());
    assert!(gen_key(Some("this secret is far too long to be a key")).is_none());
}

#[test]
fn gen_key_random_is_consistent() {
    let k = gen_key(None).expect("always some");
    assert_eq!(k.secret().len(), 32);
    let mut bytes = k.secret().clone();
    let sk = libp2p::identity::secp256k1::SecretKey::try_from_bytes(&mut bytes).unwrap();
    let kp = libp2p::identity::secp256k1::Keypair::from(sk);
    assert_eq!(k.public().as_slice(), &kp.public().to_bytes()[..]);
}

#[test]
fn boot_waits_then_follows_the_majority() {
    let mut h: BootHelper<u8, u8> = BootHelper::new();
    let mine = "AAAA".to_string();
    assert!(matches!(h.on_response("BBBB".to_string(), 1, 1, 3, &mine), BootStatus::Waiting));
    assert!(matches!(h.on_failure(3, &mine), BootStatus::Waiting));
    match h.on_response("BBBB".to_string(), 2, 2, 3, &mine) {
        BootStatus::Behind(hash) => assert_eq!(hash, "BBBB"),
        _ => panic!("expected to be behind"),
    }
    assert_eq!(h.friends_last, vec!["BBBB".to_string(), "BBBB".to_string()]);
    assert_eq!(h.friends_last_block, vec![1, 2]);
    h.start_fetch("BBBB".to_string(), "AAAA".to_string());
    assert_eq!(h.friends_last, vec!["BBBB".to_string()]);
    assert_eq!(h.temp_last, "BBBB");
}

#[test]
fn boot_up_to_date_when_majority_agrees() {
    let mut h: BootHelper<(), ()> = BootHelper::new();
    let mine = "AAAA".to_string();
    assert!(matches!(h.on_response("AAAA".to_string(), (), (), 2, &mine), BootStatus::Waiting));
    assert!(matches!(h.on_failure(2, &mine), BootStatus::UpToDate));
    assert_eq!(h.friends_last, vec!["AAAA".to_string()]);
}

#[test]
fn record_walks_back_to_own_chain() {
    let mut h: BootHelper<(), ()> = BootHelper::new();
    h.start_fetch("C".to_string(), "A".to_string());
    assert!(matches!(h.on_record(&"X".to_string(), &"C".to_string(), &NodeType::FullNode), ChainStep::Ignore));
    match h.on_record(&"C".to_string(), &"B".to_string(), &NodeType::FullNode) {
        ChainStep::Take { adopt_as_last, store, next } => {
            assert!(adopt_as_last);
            assert!(matches!(store, StoreMode::Block));
            assert!(matches!(next, NextStep::Fetch(ref p) if p == "B"));
        }
        ChainStep::Ignore => panic!("expected the block"),
    }
    assert_eq!(h.temp_last, "B");
    match h.on_record(&"B".to_string(), &"A".to_string(), &NodeType::LightNode) {
        ChainStep::Take { adopt_as_last, store, next } => {
            assert!(!adopt_as_last);
            assert!(matches!(store, StoreMode::HashOnly));
            assert!(matches!(next, NextStep::AskFriends));
        }
        ChainStep::Ignore => panic!("expected the block"),
    }
}

#[test]
fn topics_and_protocols() {
    assert!(matches!(classify_topic("Block"), GossipTopic::Block));
    assert!(matches!(classify_topic("Transaction"), GossipTopic::Transaction));
    assert!(matches!(classify_topic("move"), GossipTopic::Move));
    assert!(matches!(classify_topic("Move"), GossipTopic::Other));
    assert!(speaks_insight(&strings(&["/ipfs/id/1.0.0", "/insight"])));
    assert!(!speaks_insight(&strings(&["/ipfs/kad/1.0.0"])));
    assert!(read_request(b"hash").is_ok());
    assert!(read_request(b"").is_err());
}

#[test]
fn attempt_records_and_replays_shots() {
    let mut d = Donde::new();
    let mut a: Attempt<&str> = Attempt::new();
    d.take_shot(&mut a, "one");
    d.take_shot(&mut a, "two");
    assert_eq!(d.shot, 3);
    assert_eq!(a.shot(1), Some(&"one"));
    assert_eq!(a.shot(2), Some(&"two"));
    assert_eq!(a.shot(3), None);
    let mut r = Donde::new();
    assert!(matches!(r.replay_step(&a), Replay::Shoot(&"one")));
    assert!(matches!(r.replay_step(&a), Replay::Shoot(&"two")));
    assert!(matches!(r.replay_step(&a), Replay::Skip));
    r.shot = 6;
    assert!(r.attempt_over());
    assert!(matches!(r.replay_step(&a), Replay::Exit));
    assert!(matches!(r.replay_step(&a), Replay::Idle));
}

#[test]
fn most_frequent_for_larger_k_extends_the_list() {
    let a = strings(&["d", "b", "a", "d", "c", "b", "d", "a", "e"]);
    let full: Vec<(usize, String)> = most_frequent(&a, 10).iter().map(|(c, s)| (*c, (*s).clone())).collect();
    assert_eq!(full.len(), 5);
    for k in 0..7 {
        let part: Vec<(usize, String)> = most_frequent(&a, k).iter().map(|(c, s)| (*c, (*s).clone())).collect();
        assert_eq!(part.len(), k.min(5));
        assert_eq!(&full[..part.len()], &part[..]);
    }
    assert_eq!(full[0], (3, "d".to_string()));
    assert_eq!(full[1], (2, "b".to_string()));
    assert_eq!(full[2], (2, "a".to_string()));
}

#[test]
fn top_frequent_is_first_of_most_frequent() {
    let a = strings(&["h1", "h2", "h2", "h1", "h3", "h2"]);
    assert_eq!(top_frequent(&a), "h2");
    assert_eq!(top_frequent(&a), most_frequent(&a, 1)[0].1.clone());
}

#[test]
fn position_of_finds_first_match() {
    let a = strings(&["x", "y", "x"]);
    assert_eq!(position_of(&a, &"x".to_string()), Some(0));
    assert_eq!(position_of(&a, &"y".to_string()), Some(1));
    assert_eq!(position_of(&a, &"z".to_string()), None);
}

#[test]
fn different_bytes_have_different_hex() {
    assert_ne!(to_hex_upper(&[0x01, 0x23]), to_hex_upper(&[0x12, 0x03]));
    assert_ne!(digest_hex(b"block 1"), digest_hex(b"block 2"));
}

#[test]
fn keypair_from_secret_bytes() {
    let secret = [7u8; 32];
    let k = Keypair::from_secret_bytes(&secret).expect("valid");
    assert_eq!(k.secret().as_slice(), &secret[..]);
    assert_eq!(k.public().len(), 33);
    assert!(Keypair::from_secret_bytes(&[0u8; 32]).is_none());
    assert!(Keypair::from_secret_bytes(&[0xffu8; 32]).is_none());
    assert!(Keypair::from_secret_bytes(&[1u8; 23]).is_none());
}

#[test]
fn signed_message_verifies_under_its_key() {
    let k = Keypair::from_secret_bytes(&[7u8; 32]).expect("valid");
    let sig = k.sign(b"tx data hash");
    assert_eq!(verify_transaction_sig(k.public(), b"tx data hash", &sig), Some(true));
    assert_eq!(verify_transaction_sig(k.public(), b"another hash", &sig), Some(false));
    assert_eq!(verify_transaction_sig(k.public(), b"tx data hash", b"not a signature"), Some(false));
    assert_eq!(verify_transaction_sig(&[0u8; 33], b"tx data hash", &sig), None);
    assert_eq!(verify_transaction_sig(&[], b"tx data hash", &sig), None);
}

#[test]
fn signature_is_libp2p_secp256k1_signature() {
    let k = Keypair::from_secret_bytes(&[9u8; 32]).expect("valid");
    let mut bytes = [9u8; 32];
    let sk = libp2p::identity::secp256k1::SecretKey::try_from_bytes(&mut bytes).unwrap();
    assert_eq!(k.sign(b"message"), sk.sign(b"message"));
    assert_eq!(k.sign(b"message"), k.sign(b"message"));
    assert_ne!(k.sign(b"message"), k.sign(b"massage"));
    let other = Keypair::from_secret_bytes(&[8u8; 32]).expect("valid");
    assert_eq!(verify_transaction_sig(other.public(), b"message", &k.sign(b"message")), Some(false));
}

#[test]
fn account_of_public_key_is_libp2p_peer_id() {
    let k = Keypair::from_secret_bytes(&[5u8; 32]).expect("valid");
    let p = peer_of_public(k.public()).expect("a public key");
    let pk = libp2p::identity::secp256k1::PublicKey::try_from_bytes(k.public()).unwrap();
    let expected = libp2p::PeerId::from_public_key(&pk.into()).to_bytes();
    assert_eq!(p.bytes, expected);
    assert_ne!(p.bytes, k.public().clone());
    assert!(peer_of_public(&[2u8; 5]).is_none());
    assert!(peer_of_public(&[0u8; 33]).is_none());
}

#[test]
fn adoption_picks_first_matching_block_and_its_accounts() {
    let hashes = strings(&["a", "b", "b"]);
    let worlds = strings(&["w1", "w2", "w3"]);
    let accounts = strings(&["x", "w2", "w2"]);
    assert_eq!(adoption(&hashes, &worlds, &accounts, &"b".to_string()), Some((1, Some(1))));
    assert_eq!(adoption(&hashes, &worlds, &accounts, &"a".to_string()), Some((0, None)));
    assert_eq!(adoption(&hashes, &worlds, &accounts, &"c".to_string()), None);
    assert_eq!(adoption(&[], &[], &accounts, &"a".to_string()), None);
}

#[test]
fn remove_listed_drops_included_in_order() {
    let mut m: MemPool<u32> = MemPool::new();
    for i in 1..=5u32 {
        m.push(i);
    }
    assert_eq!(*m.get(0), 1);
    assert_eq!(*m.get(4), 5);
    let keys: Vec<String> = (0..m.len()).map(|i| format!("tx{}", m.get(i))).collect();
    m.remove_listed(&keys, &strings(&["tx2", "tx4", "tx9"]));
    assert_eq!(m.len(), 3);
    assert_eq!(m.pop(), Some(1));
    assert_eq!(m.pop(), Some(3));
    assert_eq!(m.pop(), Some(5));
    let mut e: MemPool<u32> = MemPool::new();
    e.push(7);
    e.remove_listed(&strings(&["a"]), &[]);
    assert_eq!(e.pop(), Some(7));
}

#[test]
fn nonce_increment_starts_fresh_accounts_at_one() {
    let mut v: ValueList<i64> = ValueList { list: PeerMap::new() };
    let fresh = AccountInfo::fresh(0i64);
    assert_eq!(fresh.nonce, 1);
    assert!(v.account(&peer(1)).is_none());
    assert_eq!(v.entry(&peer(1), fresh).nonce, 1);
    v.nonce_increment(peer(1), fresh);
    let a = v.account(&peer(1)).expect("created");
    assert_eq!((a.value, a.nonce), (0, 2));
    v.nonce_increment(peer(1), fresh);
    assert_eq!(v.account(&peer(1)).unwrap().nonce, 3);
    v.list.insert(peer(2), AccountInfo { value: 40, nonce: 7 });
    v.nonce_increment(peer(2), fresh);
    let b = v.entry(&peer(2), fresh);
    assert_eq!((b.value, b.nonce), (40, 8));
    assert_eq!(v.list.len(), 2);
    let mut one = AccountInfo::fresh(5i64);
    one.nonce_inc();
    assert_eq!((one.value, one.nonce), (5, 2));
}

#[test]
fn aim_press_then_release_fires_a_shot() {
    let mut release = IsReleased { b: BoolReleased::Yes };
    let mut res = MouseResource { first: (0i32, 0i32), second: (0, 0) };
    assert!(aim(&mut release, &mut res, false, Some((5, 5))).is_none());
    assert!(matches!(release.b, BoolReleased::Yes));
    assert!(aim(&mut release, &mut res, true, Some((1, 2))).is_none());
    assert!(matches!(release.b, BoolReleased::No));
    assert_eq!(res.first, (1, 2));
    let shot = aim(&mut release, &mut res, false, Some((7, 9))).expect("a shot");
    assert_eq!((shot.first, shot.second), ((1, 2), (7, 9)));
    assert!(matches!(release.b, BoolReleased::Yes));
    assert_eq!(res.second, (7, 9));
    assert!(aim(&mut release, &mut res, true, Some((3, 3))).is_none());
    assert!(aim(&mut release, &mut res, false, None).is_none());
    assert!(matches!(release.b, BoolReleased::Yes));
    assert_eq!((res.first, res.second), ((3, 3), (7, 9)));
}

#[test]
fn hits_take_twenty_health_until_dead() {
    assert_eq!(HIT_DAMAGE, 20);
    let mut h: u32 = 100;
    assert!(!take_hit(&mut h));
    assert_eq!(h, 80);
    let mut h: u32 = 20;
    assert!(take_hit(&mut h));
    assert_eq!(h, 0);
    let mut h: u32 = 10;
    assert!(!take_hit(&mut h));
    assert_eq!(h, 10);
    let mut h: u32 = 0;
    assert!(take_hit(&mut h));
    assert_eq!(h, 0);
}

#[test]
fn frame_round_trip() {
    assert_eq!(frame(b"hash"), vec![4, b'h', b'a', b's', b'h']);
    let long = vec![0xabu8; 300];
    let f = frame(&long);
    assert_eq!(&f[..2], &[0xac, 0x02]);
    assert_eq!(unframe(&f, 1_000_000).ok(), Some(long.clone()));
    let big = vec![1u8; 20000];
    let fb = frame(&big);
    assert_eq!(&fb[..3], &[0xa0, 0x9c, 0x01]);
    assert_eq!(unframe(&fb, 1_000_000).ok(), Some(big));
    let mut tail = frame(b"hash");
    tail.extend_from_slice(b"rest");
    assert_eq!(unframe(&tail, 10).ok(), Some(b"hash".to_vec()));
    assert_eq!(unframe(&frame(b""), 10).ok(), Some(Vec::new()));
    assert!(read_request(&unframe(&frame(b"hash"), 10).ok().unwrap()).is_ok());
}

#[test]
fn unframe_errors() {
    assert_eq!(unframe(&[], 10).ok(), Some(Vec::new()));
    assert!(matches!(unframe(&[0x80], 10), Err(FrameError::UnexpectedEof)));
    assert!(matches!(unframe(&[0x80, 0x80], 10), Err(FrameError::UnexpectedEof)));
    assert!(matches!(unframe(&[0x80, 0x80, 0x80], 10), Err(FrameError::UnexpectedEof)));
    assert!(matches!(unframe(&[0x80; 9], 10), Err(FrameError::UnexpectedEof)));
    assert!(matches!(unframe(&[0x80; 10], 10), Err(FrameError::TooLarge)));
    assert!(matches!(unframe(&[0x80; 12], usize::MAX), Err(FrameError::TooLarge)));
    assert!(matches!(unframe(&[11, 0], 10), Err(FrameError::TooLarge)));
    assert!(matches!(unframe(&[5, 1, 2], 10), Err(FrameError::UnexpectedEof)));
    assert!(matches!(unframe(&frame(&vec![0u8; 300]), 299), Err(FrameError::TooLarge)));
}

#[test]
fn long_prefixes_read_to_their_end() {
    let big = vec![3u8; 3_000_000];
    let f = frame(&big);
    assert_eq!(&f[..4], &[0xc0, 0x8d, 0xb7, 0x01]);
    assert_eq!(f.len(), 3_000_004);
    assert_eq!(unframe(&f, 3_000_000).ok(), Some(big));
    assert!(matches!(unframe(&f, 2_999_999), Err(FrameError::TooLarge)));
    // A prefix with a redundant zero byte still reads.
    assert_eq!(unframe(&[0x82, 0x00, 7, 8], 10).ok(), Some(vec![7, 8]));
    // Nine full bytes and a 1: the largest 64-bit length, more than is there.
    let mut most = vec![0xffu8; 9];
    most.push(0x01);
    assert!(matches!(unframe(&most, usize::MAX), Err(FrameError::UnexpectedEof)));
    let mut over = vec![0xffu8; 9];
    over.push(0x02);
    assert!(matches!(unframe(&over, usize::MAX), Err(FrameError::TooLarge)));
}

#[test]
fn most_frequent_ignores_order() {
    let a = strings(&["b", "a", "c", "a", "b", "a", "d"]);
    let b = strings(&["a", "d", "a", "b", "c", "b", "a"]);
    for k in 0..6 {
        let ra: Vec<(usize, String)> = most_frequent(&a, k).iter().map(|(c, s)| (*c, (*s).clone())).collect();
        let rb: Vec<(usize, String)> = most_frequent(&b, k).iter().map(|(c, s)| (*c, (*s).clone())).collect();
        assert_eq!(ra, rb);
    }
}
