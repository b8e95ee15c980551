use vstd::prelude::*;

verus! {

/// The most bytes a length prefix may take: the LEB128 encoding of a
/// 64-bit length never needs more.
pub const MAX_PREFIX_BYTES: usize = 10;

/// A request for a friend's last block and accounts.
#[derive(Debug)]
pub struct BlockRequest;

/// Why a frame read from a friend is refused.
pub enum FrameError {
    /// The stream ended before the frame did.
    UnexpectedEof,
    /// The frame is longer than allowed.
    TooLarge,
}

/// Checks a length-prefixed frame's payload: an empty one means the peer
/// closed the stream early.
pub fn check_frame(payload: &[u8]) -> (r: Result<(), FrameError>)
    ensures
        r is Ok <==> payload@.len() > 0,
{
    if payload.len() == 0 {
        Err(FrameError::UnexpectedEof)
    } else {
        Ok(())
    }
}

/// Reads a block request from its frame's payload.
pub fn read_request(payload: &[u8]) -> (r: Result<BlockRequest, FrameError>)
    ensures
        r is Ok <==> payload@.len() > 0,
{
    match check_frame(payload) {
        Ok(()) => Ok(BlockRequest),
        Err(e) => Err(e),
    }
}

/// The unsigned LEB128 encoding of `n`: seven bits per byte, low bits
/// first, the high bit set on every byte but the last.
pub open spec fn leb128(n: nat) -> Seq<u8>
    decreases n,
{
    if n < 128 {
        seq![n as u8]
    } else {
        seq![(n % 128 + 128) as u8] + leb128(n / 128)
    }
}

/// The number that the LEB128 bytes `s` encode (the high bits ignored).
pub open spec fn leb128_value(s: Seq<u8>) -> nat
    decreases s.len(),
{
    if s.len() == 0 {
        0
    } else {
        (s[0] % 128) as nat + 128 * leb128_value(s.drop_first())
    }
}

/// The index of the first byte at or after `i` whose high bit is clear,
/// or the length of `b` when there is none.
pub open spec fn continued_from(b: Seq<u8>, i: int) -> int
    decreases b.len() - i,
{
    if 0 <= i < b.len() && b[i] >= 128 {
        continued_from(b, i + 1)
    } else {
        i
    }
}

/// What reading one length-prefixed frame of at most `max` bytes from the
/// stream `b` gives. Nothing at all reads as an empty frame. A prefix
/// still going on after `MAX_PREFIX_BYTES` bytes, or a length above `max`,
/// is too large. A stream that ends inside the prefix or the payload ends
/// early.
pub open spec fn unframed(b: Seq<u8>, max: int) -> Result<Seq<u8>, FrameError> {
    let c = continued_from(b, 0);
    let w = c + 1;
    let v = leb128_value(b.take(w)) as int;
    if b.len() == 0 {
        Ok(Seq::empty())
    } else if c >= MAX_PREFIX_BYTES {
        Err(FrameError::TooLarge)
    } else if c == b.len() {
        Err(FrameError::UnexpectedEof)
    } else if v > max {
        Err(FrameError::TooLarge)
    } else if b.len() < w + v {
        Err(FrameError::UnexpectedEof)
    } else {
        Ok(b.subrange(w, w + v))
    }
}

proof fn lemma_leb128_step(n: nat)
    requires
        n >= 128,
    ensures
        leb128(n) == seq![(n % 128 + 128) as u8] + leb128(n / 128),
{
}

/// The frame of `payload`: its length prefix, then the payload.
pub fn frame(payload: &[u8]) -> (r: Vec<u8>)
    ensures
        r@ == leb128(payload@.len()) + payload@,
{
    let n = payload.len();
    let mut r: Vec<u8> = Vec::new();
    let mut m: usize = n;
    assert(r@ + leb128(m as nat) =~= leb128(n as nat));
    while m >= 128
        invariant
            r@ + leb128(m as nat) == leb128(n as nat),
        decreases m,
    {
        let byte = (m % 128 + 128) as u8;
        proof {
            lemma_leb128_step(m as nat);
            assert(r@.push(byte) + leb128((m / 128) as nat) =~= r@ + leb128(m as nat));
        }
        r.push(byte);
        m = m / 128;
    }
    r.push(m as u8);
    let ghost prefix = r@;
    assert(prefix =~= leb128(n as nat));
    let mut i: usize = 0;
    while i < n
        invariant
            n == payload@.len(),
            i <= n,
            r@ == prefix + payload@.take(i as int),
        decreases n - i,
    {
        r.push(payload[i]);
        assert(payload@.take(i + 1) =~= payload@.take(i as int).push(payload@[i as int]));
        i = i + 1;
    }
    assert(payload@.take(n as int) =~= payload@);
    r
}

proof fn lemma_continued_at_least(b: Seq<u8>, i: int)
    requires
        0 <= i,
    ensures
        continued_from(b, i) >= i,
    decreases b.len() - i,
{
    if 0 <= i < b.len() && b[i] >= 128 {
        lemma_continued_at_least(b, i + 1);
    }
}

proof fn lemma_continued_skip(b: Seq<u8>, i: int, k: int)
    requires
        0 <= i <= k <= b.len(),
        forall|j: int| i <= j < k ==> b[j] >= 128,
    ensures
        continued_from(b, i) == continued_from(b, k),
    decreases k - i,
{
    if i < k {
        lemma_continued_skip(b, i + 1, k);
    }
}

proof fn lemma_leb128_value_suffix(s: Seq<u8>, j: int)
    requires
        0 <= j <= s.len(),
    ensures
        leb128_value(s) >= leb128_value(s.subrange(j, s.len() as int)),
    decreases j,
{
    if j == 0 {
        assert(s.subrange(0, s.len() as int) =~= s);
    } else {
        lemma_leb128_value_suffix(s.drop_first(), j - 1);
        assert(s.drop_first().subrange(j - 1, s.drop_first().len() as int) =~= s.subrange(j, s.len() as int));
    }
}

/// Reads one length-prefixed frame of at most `max` bytes from the bytes
/// of a stream (see `unframed`).
pub fn unframe(b: &[u8], max: usize) -> (r: Result<Vec<u8>, FrameError>)
    ensures
        match r {
            Ok(p) => unframed(b@, max as int) == Ok::<Seq<u8>, FrameError>(p@),
            Err(e) => unframed(b@, max as int) == Err::<Seq<u8>, FrameError>(e),
        },
{
    let len = b.len();
    if len == 0 {
        return Ok(Vec::new());
    }
    let mut c: usize = 0;
    while c < len && c < MAX_PREFIX_BYTES && b[c] >= 128
        invariant
            len == b@.len(),
            c <= len,
            c <= MAX_PREFIX_BYTES,
            continued_from(b@, 0) == continued_from(b@, c as int),
        decreases len - c,
    {
        c = c + 1;
    }
    if c >= MAX_PREFIX_BYTES {
        proof {
            lemma_continued_at_least(b@, c as int);
        }
        return Err(FrameError::TooLarge);
    }
    if c == len {
        return Err(FrameError::UnexpectedEof);
    }
    assert(continued_from(b@, 0) == c);
    let w = c + 1;
    let ghost pre = b@.take(w as int);
    // The prefix's value, from its last byte down, while it stays within `max`.
    let mut j: usize = w;
    let mut v: usize = 0;
    assert(pre.subrange(w as int, w as int) =~= Seq::<u8>::empty());
    while j > 0
        invariant
            w == c + 1,
            c < MAX_PREFIX_BYTES,
            continued_from(b@, 0) == c,
            w <= len,
            len == b@.len(),
            pre == b@.take(w as int),
            j <= w,
            v == leb128_value(pre.subrange(j as int, w as int)),
            v <= max,
        decreases j,
    {
        let d = (b[j - 1] % 128) as usize;
        proof {
            assert(pre.subrange(j - 1, w as int).drop_first() =~= pre.subrange(j as int, w as int));
            assert(pre[j - 1] == b@[j - 1]);
            assert(leb128_value(pre.subrange(j - 1, w as int)) == d + 128 * v);
            lemma_leb128_value_suffix(pre, j - 1);
            assert(pre.len() == w);
        }
        if v > max / 128 {
            proof {
                assert(128 * v > max) by (nonlinear_arith)
                    requires
                        v > max / 128,
                        max >= 0,
                ;
                assert(leb128_value(pre) > max);
            }
            return Err(FrameError::TooLarge);
        }
        assert(128 * v <= max) by (nonlinear_arith)
            requires
                v <= max / 128,
                max >= 0,
        ;
        let t = 128 * v;
        if d > max - t {
            assert(leb128_value(pre) > max);
            return Err(FrameError::TooLarge);
        }
        v = t + d;
        j = j - 1;
    }
    assert(pre.subrange(0, w as int) =~= pre);
    if len - w < v {
        return Err(FrameError::UnexpectedEof);
    }
    let mut p: Vec<u8> = Vec::new();
    let mut i: usize = 0;
    while i < v
        invariant
            len == b@.len(),
            w + v <= b@.len(),
            i <= v,
            p@ == b@.subrange(w as int, w + i),
        decreases v - i,
    {
        p.push(b[w + i]);
        assert(b@.subrange(w as int, w + i + 1) =~= b@.subrange(w as int, w + i).push(b@[w + i]));
        i = i + 1;
    }
    Ok(p)
}

/// 128 to the power `k`.
pub open spec fn pow128(k: nat) -> nat
    decreases k,
{
    if k == 0 {
        1
    } else {
        128 * pow128((k - 1) as nat)
    }
}

/// The LEB128 encoding of `n`: at least one byte, the high bit set on
/// every byte but the last, and it reads back as `n`.
pub proof fn law_leb128_shape(n: nat)
    ensures
        leb128(n).len() >= 1,
        forall|j: int| 0 <= j < leb128(n).len() - 1 ==> #[trigger] leb128(n)[j] >= 128,
        leb128(n)[leb128(n).len() - 1] < 128,
        leb128_value(leb128(n)) == n,
    decreases n,
{
    if n < 128 {
        assert(leb128(n).drop_first() =~= Seq::<u8>::empty());
        assert(leb128_value(leb128(n).drop_first()) == 0);
    } else {
        law_leb128_shape(n / 128);
        let e = leb128(n);
        let t = leb128(n / 128);
        assert(e == seq![(n % 128 + 128) as u8] + t);
        assert(e.drop_first() =~= t);
        assert forall|j: int| 0 <= j < e.len() - 1 implies #[trigger] e[j] >= 128 by {
            if j > 0 {
                assert(e[j] == t[j - 1]);
            }
        }
        assert(e[e.len() - 1] == t[t.len() - 1]);
        assert(e[0] % 128 == n % 128);
        assert(leb128_value(e) == e[0] % 128 + 128 * leb128_value(t));
    }
}

proof fn lemma_leb128_len(n: nat, k: nat)
    requires
        k >= 1,
        n < pow128(k),
    ensures
        leb128(n).len() <= k,
    decreases k,
{
    if n >= 128 {
        assert(k >= 2) by {
            if k == 1 {
                assert(pow128(1) == 128 * pow128(0));
            }
        }
        let k1 = (k - 1) as nat;
        assert(n / 128 < pow128(k1)) by (nonlinear_arith)
            requires
                n < 128 * pow128(k1),
        ;
        lemma_leb128_len(n / 128, k1);
    }
}

/// LEB128 bytes carry seven bits each, low bits first: one byte is worth
/// its low seven bits, and the bytes after the first `s.len()` count
/// `128` to the power `s.len()` times over.
pub proof fn law_leb128_value(s: Seq<u8>, t: Seq<u8>, b: u8)
    ensures
        leb128_value(seq![b]) == b % 128,
        leb128_value(s + t) == leb128_value(s) + pow128(s.len()) * leb128_value(t),
    decreases s.len(),
{
    assert(seq![b].drop_first() =~= Seq::<u8>::empty());
    assert(seq![b][0] == b);
    assert(leb128_value(Seq::<u8>::empty()) == 0);
    if s.len() == 0 {
        assert(s + t =~= t);
        assert(pow128(0) == 1);
        assert(leb128_value(s) == 0);
        assert(pow128(s.len()) * leb128_value(t) == leb128_value(t));
    } else {
        law_leb128_value(s.drop_first(), t, b);
        assert((s + t).drop_first() =~= s.drop_first() + t);
        assert((s + t)[0] == s[0]);
        let a = leb128_value(s.drop_first());
        let c = leb128_value(t);
        let p = pow128((s.len() - 1) as nat);
        assert(pow128(s.len()) == 128 * p);
        assert(leb128_value(s + t) == (s[0] % 128) as nat + 128 * leb128_value(s.drop_first() + t));
        assert(leb128_value(s) == (s[0] % 128) as nat + 128 * a);
        assert(leb128_value(s.drop_first() + t) == a + p * c);
        assert(128 * (a + p * c) == 128 * a + (128 * p) * c) by (nonlinear_arith);
        assert(leb128_value(s + t) == leb128_value(s) + (128 * p) * c);
    }
}

/// The prefix of a stream runs up to its first byte with the high bit
/// clear: every byte before that point has the high bit set.
pub proof fn law_continued_from(b: Seq<u8>, c: int)
    requires
        0 <= c <= b.len(),
        forall|j: int| 0 <= j < c ==> b[j] >= 128,
        c == b.len() || b[c] < 128,
    ensures
        continued_from(b, 0) == c,
{
    lemma_continued_skip(b, 0, c);
}

/// A frame reads back as its payload, whatever follows it in the stream.
pub proof fn law_unframe_frame(p: Seq<u8>, rest: Seq<u8>, max: int)
    requires
        p.len() <= max,
        p.len() <= usize::MAX,
    ensures
        unframed(leb128(p.len()) + p + rest, max) == Ok::<Seq<u8>, FrameError>(p),
{
    let n = p.len();
    let e = leb128(n);
    let b = e + p + rest;
    let l = e.len() as int;
    law_leb128_shape(n);
    reveal_with_fuel(pow128, 11);
    assert(pow128(10) == 1180591620717411303424nat);
    lemma_leb128_len(n, 10);
    assert forall|j: int| 0 <= j < l - 1 implies b[j] >= 128 by {
        assert(b[j] == e[j]);
    }
    lemma_continued_skip(b, 0, l - 1);
    assert(b[l - 1] == e[l - 1]);
    assert(continued_from(b, 0) == l - 1);
    assert(b.take(l) =~= e);
    assert(b.subrange(l, l + n) =~= p);
}

} // verus!
