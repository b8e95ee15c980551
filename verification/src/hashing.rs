use sha2::Digest;
use vstd::prelude::*;

verus! {

/// The upper-case hexadecimal digit for a nibble (`0 <= n < 16`).
pub open spec fn hex_digit(n: u8) -> char {
    if n < 10 {
        (48 + n) as char
    } else {
        (55 + n) as char
    }
}

/// Upper-case hexadecimal rendering of a byte string: two digits per byte,
/// high nibble first.
pub open spec fn hex_upper(bytes: Seq<u8>) -> Seq<char>
    decreases bytes.len(),
{
    if bytes.len() == 0 {
        Seq::empty()
    } else {
        seq![hex_digit(bytes[0] / 16), hex_digit(bytes[0] % 16)] + hex_upper(bytes.drop_first())
    }
}

/// SHA-256 digest of a byte string, as computed by the `sha2` crate.
pub uninterp spec fn sha256_digest(data: Seq<u8>) -> Seq<u8>;

/// Calls `sha2::Sha256::digest`. Trusted: the result is the SHA-256 digest
/// of `data` (named `sha256_digest`), which is always 32 bytes long.
#[verifier::external_body]
fn sha256(data: &[u8]) -> (digest: Vec<u8>)
    ensures
        digest@ == sha256_digest(data@),
        digest@.len() == 32,
{
    sha2::Sha256::digest(data).to_vec()
}

/// Calls `String::push`, which appends one character at the end.
#[verifier::external_body]
fn push_char(s: &mut String, c: char)
    ensures
        final(s)@ == old(s)@.push(c),
{
    s.push(c)
}

/// The digits: a nibble below 10 is the decimal digit `'0'` to `'9'`, one
/// of 10 to 15 the capital letter `'A'` to `'F'`; a byte is written as its
/// high nibble, then its low nibble, and a byte string byte after byte.
pub proof fn law_hex_digits(n: u8, b: u8, s: Seq<u8>, t: Seq<u8>)
    requires
        n < 16,
    ensures
        n < 10 ==> hex_digit(n) as int == '0' as int + n,
        n >= 10 ==> hex_digit(n) as int == 'A' as int + (n - 10),
        hex_upper(seq![b]) == seq![hex_digit(b / 16), hex_digit(b % 16)],
        hex_upper(s + t) == hex_upper(s) + hex_upper(t),
    decreases s.len(),
{
    assert(seq![b].drop_first() =~= Seq::<u8>::empty());
    assert(seq![b][0] == b);
    assert(hex_upper(Seq::<u8>::empty()) =~= Seq::<char>::empty());
    assert(hex_upper(seq![b]) =~= seq![hex_digit(b / 16), hex_digit(b % 16)]);
    if s.len() == 0 {
        assert(s + t =~= t);
        assert(hex_upper(s) =~= Seq::<char>::empty());
        assert(hex_upper(s) + hex_upper(t) =~= hex_upper(t));
    } else {
        law_hex_digits(n, b, s.drop_first(), t);
        assert((s + t).drop_first() =~= s.drop_first() + t);
        assert((s + t)[0] == s[0]);
        let h = seq![hex_digit(s[0] / 16), hex_digit(s[0] % 16)];
        assert(h + (hex_upper(s.drop_first()) + hex_upper(t)) =~= (h + hex_upper(s.drop_first())) + hex_upper(t));
    }
}

fn nibble_digit(n: u8) -> (c: char)
    requires
        n < 16,
    ensures
        c == hex_digit(n),
{
    if n < 10 {
        (48 + n) as char
    } else {
        (55 + n) as char
    }
}

proof fn lemma_hex_upper_push(bytes: Seq<u8>, b: u8)
    ensures
        hex_upper(bytes.push(b)) == hex_upper(bytes) + seq![hex_digit(b / 16), hex_digit(b % 16)],
    decreases bytes.len(),
{
    if bytes.len() == 0 {
        assert(bytes.push(b).drop_first() =~= Seq::<u8>::empty());
        assert(hex_upper(Seq::<u8>::empty()) =~= Seq::<char>::empty());
        assert(hex_upper(bytes.push(b)) =~= seq![hex_digit(b / 16), hex_digit(b % 16)]);
    } else {
        lemma_hex_upper_push(bytes.drop_first(), b);
        assert(bytes.push(b).drop_first() =~= bytes.drop_first().push(b));
        assert(hex_upper(bytes.push(b)) =~= hex_upper(bytes) + seq![hex_digit(b / 16), hex_digit(b % 16)]);
    }
}

proof fn lemma_hex_upper_len(bytes: Seq<u8>)
    ensures
        hex_upper(bytes).len() == 2 * bytes.len(),
    decreases bytes.len(),
{
    if bytes.len() > 0 {
        lemma_hex_upper_len(bytes.drop_first());
    }
}

/// Upper-case hexadecimal rendering of `data`, two digits per byte
/// (what `format!("{:X}", ..)` prints for a digest).
pub fn to_hex_upper(data: &[u8]) -> (s: String)
    ensures
        s@ == hex_upper(data@),
        s@.len() == 2 * data@.len(),
{
    let mut s = String::new();
    let mut i: usize = 0;
    while i < data.len()
        invariant
            i <= data@.len(),
            s@ == hex_upper(data@.take(i as int)),
        decreases data@.len() - i,
    {
        let b = data[i];
        proof {
            lemma_hex_upper_push(data@.take(i as int), b);
            assert(data@.take(i as int).push(b) =~= data@.take(i + 1));
        }
        push_char(&mut s, nibble_digit(b / 16));
        push_char(&mut s, nibble_digit(b % 16));
        assert(s@ =~= hex_upper(data@.take(i + 1)));
        i = i + 1;
    }
    assert(data@.take(i as int) =~= data@);
    proof {
        lemma_hex_upper_len(data@);
    }
    s
}

/// Upper-case hexadecimal SHA-256 digest of a serialized value: the hash
/// by which blocks, transactions and account snapshots are named.
pub fn digest_hex(data: &[u8]) -> (s: String)
    ensures
        s@ == hex_upper(sha256_digest(data@)),
        s@.len() == 64,
{
    let d = sha256(data);
    to_hex_upper(d.as_slice())
}

proof fn lemma_hex_digit_injective(a: u8, b: u8)
    requires
        a < 16,
        b < 16,
        hex_digit(a) == hex_digit(b),
    ensures
        a == b,
{
    let ca = hex_digit(a);
    let cb = hex_digit(b);
    assert(ca as u32 == cb as u32);
    if a < 10 {
        assert(ca as u32 == 48 + a);
    } else {
        assert(ca as u32 == 55 + a);
    }
    if b < 10 {
        assert(cb as u32 == 48 + b);
    } else {
        assert(cb as u32 == 55 + b);
    }
}

/// Different byte strings have different hexadecimal renderings, so the
/// textual hash names a digest exactly.
pub proof fn law_hex_upper_injective(a: Seq<u8>, b: Seq<u8>)
    requires
        hex_upper(a) == hex_upper(b),
    ensures
        a == b,
    decreases a.len(),
{
    lemma_hex_upper_len(a);
    lemma_hex_upper_len(b);
    if a.len() > 0 {
        let ha = hex_upper(a);
        let hb = hex_upper(b);
        assert(ha[0] == hb[0] && ha[1] == hb[1]);
        assert(ha[0] == hex_digit(a[0] / 16) && ha[1] == hex_digit(a[0] % 16));
        assert(hb[0] == hex_digit(b[0] / 16) && hb[1] == hex_digit(b[0] % 16));
        lemma_hex_digit_injective(a[0] / 16, b[0] / 16);
        lemma_hex_digit_injective(a[0] % 16, b[0] % 16);
        assert(a[0] == b[0]);
        assert(hex_upper(a.drop_first()) =~= ha.skip(2));
        assert(hex_upper(b.drop_first()) =~= hb.skip(2));
        law_hex_upper_injective(a.drop_first(), b.drop_first());
        assert(a =~= seq![a[0]] + a.drop_first());
        assert(b =~= seq![b[0]] + b.drop_first());
    }
}

/// A block hash in its textual form.
pub struct HashString(pub String);

} // verus!
