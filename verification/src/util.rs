use vstd::prelude::*;
use vstd::utf8::encode_utf8;

verus! {

/// How many elements of `s` are the string `x`.
pub open spec fn occurrences(s: Seq<String>, x: Seq<char>) -> nat
    decreases s.len(),
{
    if s.len() == 0 {
        0
    } else {
        occurrences(s.drop_last(), x) + if s.last()@ == x {
            1nat
        } else {
            0nat
        }
    }
}

/// Whether the string `x` occurs in `s`.
pub open spec fn occurs_in(s: Seq<String>, x: Seq<char>) -> bool {
    exists|i: int| 0 <= i < s.len() && s[i]@ == x
}

/// Lexicographic order on byte strings (a prefix comes first), the order
/// in which Rust compares `String`s.
pub open spec fn bytes_le(a: Seq<u8>, b: Seq<u8>) -> bool
    decreases a.len(),
{
    if a.len() == 0 {
        true
    } else if b.len() == 0 {
        false
    } else if a[0] < b[0] {
        true
    } else if a[0] > b[0] {
        false
    } else {
        bytes_le(a.drop_first(), b.drop_first())
    }
}

/// The order of `(count, string)` pairs: by count, then by the string's
/// UTF-8 bytes.
pub open spec fn tally_le(c1: int, s1: Seq<char>, c2: int, s2: Seq<char>) -> bool {
    c1 < c2 || (c1 == c2 && bytes_le(encode_utf8(s1), encode_utf8(s2)))
}

/// `bytes_le` is the lexicographic order: after a common prefix, the
/// string with the smaller byte comes first, whatever follows; and a
/// string comes after each of its proper prefixes.
pub proof fn law_bytes_le_lexicographic(p: Seq<u8>, x: u8, y: u8, s: Seq<u8>, t: Seq<u8>)
    requires
        x < y,
    ensures
        bytes_le(p + seq![x] + s, p + seq![y] + t),
        !bytes_le(p + seq![y] + s, p + seq![x] + t),
        bytes_le(p, p + s),
        s.len() > 0 ==> !bytes_le(p + s, p),
    decreases p.len(),
{
    if p.len() == 0 {
        assert(p + seq![x] + s =~= seq![x] + s);
        assert(p + seq![y] + t =~= seq![y] + t);
        assert(p + seq![y] + s =~= seq![y] + s);
        assert(p + seq![x] + t =~= seq![x] + t);
        assert(p + s =~= s);
    } else {
        law_bytes_le_lexicographic(p.drop_first(), x, y, s, t);
        let q = p.drop_first();
        assert((p + seq![x] + s).drop_first() =~= q + seq![x] + s);
        assert((p + seq![y] + t).drop_first() =~= q + seq![y] + t);
        assert((p + seq![y] + s).drop_first() =~= q + seq![y] + s);
        assert((p + seq![x] + t).drop_first() =~= q + seq![x] + t);
        assert((p + s).drop_first() =~= q + s);
        assert((p + seq![x] + s)[0] == p[0]);
        assert((p + seq![y] + t)[0] == p[0]);
        assert((p + seq![y] + s)[0] == p[0]);
        assert((p + seq![x] + t)[0] == p[0]);
        assert((p + s)[0] == p[0]);
    }
}

proof fn lemma_bytes_le_total(a: Seq<u8>, b: Seq<u8>)
    ensures
        bytes_le(a, b) || bytes_le(b, a),
    decreases a.len(),
{
    if a.len() > 0 && b.len() > 0 && a[0] == b[0] {
        lemma_bytes_le_total(a.drop_first(), b.drop_first());
    }
}

proof fn lemma_bytes_le_trans(a: Seq<u8>, b: Seq<u8>, c: Seq<u8>)
    requires
        bytes_le(a, b),
        bytes_le(b, c),
    ensures
        bytes_le(a, c),
    decreases a.len(),
{
    if a.len() > 0 && b.len() > 0 && c.len() > 0 && a[0] == b[0] && b[0] == c[0] {
        lemma_bytes_le_trans(a.drop_first(), b.drop_first(), c.drop_first());
    }
}

proof fn lemma_bytes_le_refl(a: Seq<u8>)
    ensures
        bytes_le(a, a),
    decreases a.len(),
{
    if a.len() > 0 {
        lemma_bytes_le_refl(a.drop_first());
    }
}

proof fn lemma_tally_le_total(c1: int, s1: Seq<char>, c2: int, s2: Seq<char>)
    ensures
        tally_le(c1, s1, c2, s2) || tally_le(c2, s2, c1, s1),
{
    lemma_bytes_le_total(encode_utf8(s1), encode_utf8(s2));
}

proof fn lemma_tally_le_trans(c1: int, s1: Seq<char>, c2: int, s2: Seq<char>, c3: int, s3: Seq<char>)
    requires
        tally_le(c1, s1, c2, s2),
        tally_le(c2, s2, c3, s3),
    ensures
        tally_le(c1, s1, c3, s3),
{
    if c1 == c2 && c2 == c3 {
        lemma_bytes_le_trans(encode_utf8(s1), encode_utf8(s2), encode_utf8(s3));
    }
}

/// Compares two byte strings in lexicographic order.
fn slice_bytes_le(a: &[u8], b: &[u8]) -> (r: bool)
    ensures
        r == bytes_le(a@, b@),
{
    let mut i: usize = 0;
    assert(a@.skip(0) =~= a@ && b@.skip(0) =~= b@);
    while i < a.len() && i < b.len()
        invariant
            i <= a@.len(),
            i <= b@.len(),
            bytes_le(a@, b@) == bytes_le(a@.skip(i as int), b@.skip(i as int)),
        decreases a@.len() - i,
    {
        if a[i] < b[i] {
            return true;
        }
        if a[i] > b[i] {
            return false;
        }
        assert(a@.skip(i as int).drop_first() =~= a@.skip(i + 1));
        assert(b@.skip(i as int).drop_first() =~= b@.skip(i + 1));
        i = i + 1;
    }
    a.len() - i == 0 || b.len() - i != 0
}

/// Whether `(c1, s1)` comes at or before `(c2, s2)`.
fn tally_le_exec(c1: usize, s1: &String, c2: usize, s2: &String) -> (r: bool)
    ensures
        r == tally_le(c1 as int, s1@, c2 as int, s2@),
{
    if c1 != c2 {
        c1 < c2
    } else {
        slice_bytes_le(s1.as_str().as_bytes(), s2.as_str().as_bytes())
    }
}

/// Counting goes element by element: one string counts 1 for itself and 0
/// for any other, and the count over two lists joined is the sum of the
/// counts.
pub proof fn law_occurrences_count(s: Seq<String>, t: Seq<String>, e: String, x: Seq<char>)
    ensures
        occurrences(seq![e], x) == (if e@ == x {
            1nat
        } else {
            0nat
        }),
        occurrences(s + t, x) == occurrences(s, x) + occurrences(t, x),
    decreases t.len(),
{
    assert(seq![e].drop_last() =~= Seq::<String>::empty());
    assert(seq![e].last() == e);
    assert(occurrences(Seq::<String>::empty(), x) == 0);
    if t.len() == 0 {
        assert(s + t =~= s);
    } else {
        law_occurrences_count(s, t.drop_last(), e, x);
        assert((s + t).drop_last() =~= s + t.drop_last());
        assert((s + t).last() == t.last());
    }
}

proof fn lemma_occurrences_push(s: Seq<String>, e: String, x: Seq<char>)
    ensures
        occurrences(s.push(e), x) == occurrences(s, x) + if e@ == x {
            1nat
        } else {
            0nat
        },
{
    assert(s.push(e).drop_last() =~= s);
}

proof fn lemma_occurrences_absent(s: Seq<String>, x: Seq<char>)
    requires
        forall|j: int| 0 <= j < s.len() ==> #[trigger] s[j]@ != x,
    ensures
        occurrences(s, x) == 0,
    decreases s.len(),
{
    if s.len() > 0 {
        lemma_occurrences_absent(s.drop_last(), x);
    }
}

proof fn lemma_occurrences_bound(s: Seq<String>, x: Seq<char>)
    ensures
        occurrences(s, x) <= s.len(),
    decreases s.len(),
{
    if s.len() > 0 {
        lemma_occurrences_bound(s.drop_last(), x);
    }
}

/// Every string among the first `upto` of `array` is one of the strings
/// that `firsts` points at.
#[verifier::opaque]
spec fn all_tallied(array: Seq<String>, firsts: Seq<usize>, upto: int) -> bool {
    forall|j: int|
        #![trigger array[j]]
        0 <= j < upto ==> exists|a: int| 0 <= a < firsts.len() && array[#[trigger] firsts[a] as int]@ == array[j]@
}

/// The distinct strings of `array`, each by the index of its first
/// occurrence, with their numbers of occurrences.
fn tally(array: &[String]) -> (res: (Vec<usize>, Vec<usize>))
    ensures
        res.0@.len() == res.1@.len(),
        forall|a: int| 0 <= a < res.0@.len() ==> #[trigger] res.0@[a] < array@.len(),
        forall|a: int, b: int|
            0 <= a < res.0@.len() && 0 <= b < res.0@.len() && a != b ==> array@[#[trigger] res.0@[a] as int]@
                != array@[#[trigger] res.0@[b] as int]@,
        forall|a: int|
            0 <= a < res.0@.len() ==> #[trigger] res.1@[a] == occurrences(array@, array@[res.0@[a] as int]@),
        all_tallied(array@, res.0@, array@.len() as int),
{
    let n = array.len();
    // Distinct strings, each by the index of its first occurrence, with counts.
    let mut firsts: Vec<usize> = Vec::new();
    let mut counts: Vec<usize> = Vec::new();
    let mut i: usize = 0;
    proof {
        reveal(all_tallied);
    }
    while i < n
        invariant
            n == array@.len(),
            i <= n,
            firsts@.len() == counts@.len(),
            forall|a: int| 0 <= a < firsts@.len() ==> #[trigger] firsts@[a] < i,
            forall|a: int, b: int|
                0 <= a < firsts@.len() && 0 <= b < firsts@.len() && a != b ==> array@[#[trigger] firsts@[a] as int]@
                    != array@[#[trigger] firsts@[b] as int]@,
            forall|a: int|
                0 <= a < firsts@.len() ==> #[trigger] counts@[a] == occurrences(
                    array@.take(i as int),
                    array@[firsts@[a] as int]@,
                ),
            all_tallied(array@, firsts@, i as int),
        decreases n - i,
    {
        let ghost prefix = array@.take(i as int);
        proof {
            assert(array@.take(i + 1) =~= prefix.push(array@[i as int]));
            assert forall|a: int| 0 <= a < firsts@.len() implies occurrences(
                array@.take(i + 1),
                array@[firsts@[a] as int]@,
            ) == #[trigger] counts@[a] + if array@[i as int]@ == array@[firsts@[a] as int]@ {
                1nat
            } else {
                0nat
            } by {
                lemma_occurrences_push(prefix, array@[i as int], array@[firsts@[a] as int]@);
                lemma_occurrences_bound(prefix, array@[firsts@[a] as int]@);
            }
        }
        let mut a: usize = 0;
        let mut found = false;
        while a < firsts.len()
            invariant_except_break
                !found,
            invariant
                n == array@.len(),
                i < n,
                firsts@.len() == counts@.len(),
                a <= firsts@.len(),
                forall|b: int| 0 <= b < firsts@.len() ==> #[trigger] firsts@[b] < i,
                forall|b: int| 0 <= b < a ==> array@[#[trigger] firsts@[b] as int]@ != array@[i as int]@,
            ensures
                found ==> a < firsts@.len() && array@[firsts@[a as int] as int]@ == array@[i as int]@,
                !found ==> forall|b: int|
                    0 <= b < firsts@.len() ==> array@[#[trigger] firsts@[b] as int]@ != array@[i as int]@,
            decreases firsts@.len() - a,
        {
            if array[firsts[a]] == array[i] {
                found = true;
                break;
            }
            a = a + 1;
        }
        let ghost old_firsts = firsts@;
        if found {
            proof {
                lemma_occurrences_bound(prefix, array@[firsts@[a as int] as int]@);
            }
            let c = counts[a];
            counts.set(a, c + 1);
        } else {
            proof {
                lemma_occurrences_push(prefix, array@[i as int], array@[i as int]@);
                assert(occurrences(prefix, array@[i as int]@) == 0) by {
                    assert forall|j: int| 0 <= j < prefix.len() implies #[trigger] prefix[j]@
                        != array@[i as int]@ by {
                        reveal(all_tallied);
                        assert(array@[j] == prefix[j]);
                        let b = choose|b: int| 0 <= b < firsts@.len() && array@[#[trigger] firsts@[b] as int]@ == array@[j]@;
                    }
                    lemma_occurrences_absent(prefix, array@[i as int]@);
                }
            }
            firsts.push(i);
            counts.push(1);
        }
        proof {
            reveal(all_tallied);
            assert forall|j: int| #![trigger array@[j]] 0 <= j < i + 1 implies exists|b: int|
                0 <= b < firsts@.len() && array@[#[trigger] firsts@[b] as int]@ == array@[j]@ by {
                if j < i {
                    assert(array@[j] == array@[j]);
                    let b = choose|b: int|
                        0 <= b < old_firsts.len() && array@[#[trigger] old_firsts[b] as int]@ == array@[j]@;
                    assert(firsts@[b] == old_firsts[b]);
                } else {
                    if found {
                        assert(array@[firsts@[a as int] as int]@ == array@[j]@);
                    } else {
                        assert(firsts@[firsts@.len() - 1] == i);
                    }
                }
            }
        }
        i = i + 1;
    }
    assert(array@.take(n as int) =~= array@);
    proof {
        reveal(all_tallied);
    }
    (firsts, counts)

}

/// The `k` most frequent strings of `array`, each with its number of
/// occurrences, most frequent first; ties are broken towards the string
/// that is greater in byte order. Fewer than `k` come back only when
/// `array` holds fewer than `k` distinct strings.
pub fn most_frequent(array: &[String], k: usize) -> (r: Vec<(usize, &String)>)
    ensures
        r@.len() <= k,
        r@.len() < k ==> forall|x: Seq<char>|
            #[trigger] occurs_in(array@, x) ==> exists|i: int| 0 <= i < r@.len() && r@[i].1@ == x,
        forall|i: int|
            0 <= i < r@.len() ==> occurs_in(array@, #[trigger] r@[i].1@) && r@[i].0 == occurrences(
                array@,
                r@[i].1@,
            ),
        forall|i: int, j: int|
            0 <= i < j < r@.len() ==> #[trigger] r@[i].1@ != #[trigger] r@[j].1@,
        forall|i: int, j: int|
            0 <= i < j < r@.len() ==> tally_le(
                #[trigger] r@[j].0 as int,
                r@[j].1@,
                #[trigger] r@[i].0 as int,
                r@[i].1@,
            ),
        forall|x: Seq<char>, i: int|
            #[trigger] occurs_in(array@, x) && 0 <= i < r@.len() && (forall|l: int|
                0 <= l < r@.len() ==> r@[l].1@ != x) ==> tally_le(
                occurrences(array@, x) as int,
                x,
                #[trigger] r@[i].0 as int,
                r@[i].1@,
            ),
        is_top_tally(array@, k as int, tallies(r@)),
{
    let (firsts, counts) = tally(array);
    let n = array.len();
    // Choose the best remaining string, k times at most.
    let m = firsts.len();
    let mut chosen: Vec<bool> = vec![false; m];
    let mut r: Vec<(usize, &String)> = Vec::new();
    let ghost mut sel: Seq<int> = Seq::empty();
    while r.len() < k
        invariant
            n == array@.len(),
            m == firsts@.len(),
            m == counts@.len(),
            m == chosen@.len(),
            forall|a: int| 0 <= a < m ==> #[trigger] firsts@[a] < n,
            forall|a: int, b: int|
                0 <= a < m && 0 <= b < m && a != b ==> array@[#[trigger] firsts@[a] as int]@
                    != array@[#[trigger] firsts@[b] as int]@,
            forall|a: int|
                0 <= a < m ==> #[trigger] counts@[a] == occurrences(array@, array@[firsts@[a] as int]@),
            all_tallied(array@, firsts@, n as int),
            r@.len() <= k,
            sel.len() == r@.len(),
            forall|l: int| 0 <= l < sel.len() ==> 0 <= #[trigger] sel[l] < m,
            forall|l1: int, l2: int| 0 <= l1 < l2 < sel.len() ==> #[trigger] sel[l1] != #[trigger] sel[l2],
            forall|l: int|
                0 <= l < sel.len() ==> #[trigger] r@[l] == (counts@[sel[l]], &array@[firsts@[sel[l]] as int]),
            forall|a: int| 0 <= a < m ==> (#[trigger] chosen@[a] <==> exists|l: int| 0 <= l < sel.len() && sel[l] == a),
            forall|l1: int, l2: int|
                0 <= l1 < l2 < sel.len() ==> tally_le(
                    #[trigger] counts@[sel[l2]] as int,
                    array@[firsts@[sel[l2]] as int]@,
                    #[trigger] counts@[sel[l1]] as int,
                    array@[firsts@[sel[l1]] as int]@,
                ),
            forall|a: int, l: int|
                0 <= a < m && 0 <= l < sel.len() && !chosen@[a] ==> tally_le(
                    #[trigger] counts@[a] as int,
                    array@[firsts@[a] as int]@,
                    #[trigger] counts@[sel[l]] as int,
                    array@[firsts@[sel[l]] as int]@,
                ),
        ensures
            r@.len() <= k,
            sel.len() == r@.len(),
            m == chosen@.len(),
            forall|a: int|
                0 <= a < m ==> #[trigger] counts@[a] == occurrences(array@, array@[firsts@[a] as int]@),
            all_tallied(array@, firsts@, n as int),
            forall|l: int| 0 <= l < sel.len() ==> 0 <= #[trigger] sel[l] < m,
            forall|l1: int, l2: int| 0 <= l1 < l2 < sel.len() ==> #[trigger] sel[l1] != #[trigger] sel[l2],
            forall|l: int|
                0 <= l < sel.len() ==> #[trigger] r@[l] == (counts@[sel[l]], &array@[firsts@[sel[l]] as int]),
            forall|a: int| 0 <= a < m ==> (#[trigger] chosen@[a] <==> exists|l: int| 0 <= l < sel.len() && sel[l] == a),
            forall|l1: int, l2: int|
                0 <= l1 < l2 < sel.len() ==> tally_le(
                    #[trigger] counts@[sel[l2]] as int,
                    array@[firsts@[sel[l2]] as int]@,
                    #[trigger] counts@[sel[l1]] as int,
                    array@[firsts@[sel[l1]] as int]@,
                ),
            forall|a: int, l: int|
                0 <= a < m && 0 <= l < sel.len() && !chosen@[a] ==> tally_le(
                    #[trigger] counts@[a] as int,
                    array@[firsts@[a] as int]@,
                    #[trigger] counts@[sel[l]] as int,
                    array@[firsts@[sel[l]] as int]@,
                ),
            r@.len() < k ==> forall|a: int| 0 <= a < m ==> #[trigger] chosen@[a],
        decreases k - r@.len(),
    {
        let mut best: usize = m;
        let mut j: usize = 0;
        while j < m
            invariant
                n == array@.len(),
                m == firsts@.len(),
                m == counts@.len(),
                m == chosen@.len(),
                forall|a: int| 0 <= a < m ==> #[trigger] firsts@[a] < n,
                j <= m,
                best == m || (best < j && !chosen@[best as int]),
                best == m ==> forall|a: int| 0 <= a < j ==> #[trigger] chosen@[a],
                best < m ==> forall|a: int|
                    0 <= a < j && !chosen@[a] ==> tally_le(
                        #[trigger] counts@[a] as int,
                        array@[firsts@[a] as int]@,
                        counts@[best as int] as int,
                        array@[firsts@[best as int] as int]@,
                    ),
            decreases m - j,
        {
            proof {
                lemma_bytes_le_refl(encode_utf8(array@[firsts@[j as int] as int]@));
            }
            if !chosen[j] {
                if best == m || !tally_le_exec(
                    counts[j],
                    &array[firsts[j]],
                    counts[best],
                    &array[firsts[best]],
                ) {
                    proof {
                        if best < m {
                            lemma_tally_le_total(
                                counts@[j as int] as int,
                                array@[firsts@[j as int] as int]@,
                                counts@[best as int] as int,
                                array@[firsts@[best as int] as int]@,
                            );
                            assert forall|a: int| 0 <= a < j && !chosen@[a] implies tally_le(
                                #[trigger] counts@[a] as int,
                                array@[firsts@[a] as int]@,
                                counts@[j as int] as int,
                                array@[firsts@[j as int] as int]@,
                            ) by {
                                lemma_tally_le_trans(
                                    counts@[a] as int,
                                    array@[firsts@[a] as int]@,
                                    counts@[best as int] as int,
                                    array@[firsts@[best as int] as int]@,
                                    counts@[j as int] as int,
                                    array@[firsts@[j as int] as int]@,
                                );
                            }
                        }
                    }
                    best = j;
                }
            }
            j = j + 1;
        }
        if best == m {
            break;
        }
        let ghost old_chosen = chosen@;
        let ghost old_sel = sel;
        chosen.set(best, true);
        r.push((counts[best], &array[firsts[best]]));
        proof {
            sel = sel.push(best as int);
            assert forall|a: int| 0 <= a < m implies (#[trigger] chosen@[a] <==> exists|l: int|
                0 <= l < sel.len() && sel[l] == a) by {
                if a == best as int {
                    assert(sel[sel.len() - 1] == a);
                } else if old_chosen[a] {
                    let l = choose|l: int| 0 <= l < old_sel.len() && old_sel[l] == a;
                    assert(sel[l] == a);
                } else {
                    assert forall|l: int| 0 <= l < sel.len() implies sel[l] != a by {
                        if l < old_sel.len() {
                            assert(old_sel[l] == sel[l]);
                        }
                    }
                }
            }
            assert forall|l1: int, l2: int| 0 <= l1 < l2 < sel.len() implies #[trigger] sel[l1]
                != #[trigger] sel[l2] by {
                if l2 < old_sel.len() {
                    assert(old_sel[l1] == sel[l1] && old_sel[l2] == sel[l2]);
                } else {
                    assert(old_sel[l1] == sel[l1]);
                    assert(!old_chosen[best as int]);
                }
            }
            assert forall|l: int| 0 <= l < sel.len() implies #[trigger] r@[l] == (
                counts@[sel[l]],
                &array@[firsts@[sel[l]] as int],
            ) by {
                if l < old_sel.len() {
                    assert(old_sel[l] == sel[l]);
                }
            }
            assert forall|l1: int, l2: int| 0 <= l1 < l2 < sel.len() implies tally_le(
                #[trigger] counts@[sel[l2]] as int,
                array@[firsts@[sel[l2]] as int]@,
                #[trigger] counts@[sel[l1]] as int,
                array@[firsts@[sel[l1]] as int]@,
            ) by {
                assert(old_sel[l1] == sel[l1]);
                if l2 < old_sel.len() {
                    assert(old_sel[l2] == sel[l2]);
                } else {
                    assert(!old_chosen[best as int]);
                }
            }
            assert forall|a: int, l: int| 0 <= a < m && 0 <= l < sel.len() && !chosen@[a] implies tally_le(
                #[trigger] counts@[a] as int,
                array@[firsts@[a] as int]@,
                #[trigger] counts@[sel[l]] as int,
                array@[firsts@[sel[l]] as int]@,
            ) by {
                assert(!old_chosen[a]);
                if l < old_sel.len() {
                    assert(old_sel[l] == sel[l]);
                }
            }
        }
    }
    proof {
        assert forall|i1: int, i2: int| 0 <= i1 < i2 < r@.len() implies #[trigger] r@[i1].1@
            != #[trigger] r@[i2].1@ by {
            assert(sel[i1] != sel[i2]);
            assert(r@[i1] == (counts@[sel[i1]], &array@[firsts@[sel[i1]] as int]));
            assert(r@[i2] == (counts@[sel[i2]], &array@[firsts@[sel[i2]] as int]));
        }
        assert forall|l: int| 0 <= l < r@.len() implies occurs_in(array@, #[trigger] r@[l].1@)
            && r@[l].0 == occurrences(array@, r@[l].1@) by {
            assert(r@[l] == (counts@[sel[l]], &array@[firsts@[sel[l]] as int]));
            assert(array@[firsts@[sel[l]] as int]@ == r@[l].1@);
        }
        assert forall|i1: int, i2: int| 0 <= i1 < i2 < r@.len() implies tally_le(
            #[trigger] r@[i2].0 as int,
            r@[i2].1@,
            #[trigger] r@[i1].0 as int,
            r@[i1].1@,
        ) by {
            assert(r@[i1] == (counts@[sel[i1]], &array@[firsts@[sel[i1]] as int]));
            assert(r@[i2] == (counts@[sel[i2]], &array@[firsts@[sel[i2]] as int]));
        }
        assert forall|x: Seq<char>, l: int|
            #[trigger] occurs_in(array@, x) && 0 <= l < r@.len() && (forall|l2: int|
                0 <= l2 < r@.len() ==> r@[l2].1@ != x) implies tally_le(
            occurrences(array@, x) as int,
            x,
            #[trigger] r@[l].0 as int,
            r@[l].1@,
        ) by {
            reveal(all_tallied);
            let j = choose|j: int| 0 <= j < array@.len() && array@[j]@ == x;
            assert(array@[j] == array@[j]);
            let a = choose|a: int| 0 <= a < m && array@[#[trigger] firsts@[a] as int]@ == array@[j]@;
            assert(r@[l] == (counts@[sel[l]], &array@[firsts@[sel[l]] as int]));
            if chosen@[a] {
                let l2 = choose|l2: int| 0 <= l2 < sel.len() && sel[l2] == a;
                assert(r@[l2] == (counts@[sel[l2]], &array@[firsts@[sel[l2]] as int]));
                assert(r@[l2].1@ == x);
            }
            assert(!chosen@[a]);
            assert(counts@[a] as int == occurrences(array@, x));
            assert(tally_le(
                counts@[a] as int,
                array@[firsts@[a] as int]@,
                counts@[sel[l]] as int,
                array@[firsts@[sel[l]] as int]@,
            ));
        }
        if r@.len() < k {
            assert forall|x: Seq<char>| #[trigger] occurs_in(array@, x) implies exists|l: int|
                0 <= l < r@.len() && r@[l].1@ == x by {
                reveal(all_tallied);
                let j = choose|j: int| 0 <= j < array@.len() && array@[j]@ == x;
                assert(array@[j] == array@[j]);
                let a = choose|a: int| 0 <= a < m && array@[#[trigger] firsts@[a] as int]@ == array@[j]@;
                assert(chosen@[a]);
                let l = choose|l: int| 0 <= l < sel.len() && sel[l] == a;
                assert(r@[l] == (counts@[sel[l]], &array@[firsts@[sel[l]] as int]));
            }
        }
    }
    proof {
        let t = tallies(r@);
        assert(t.len() == r@.len());
        assert forall|i: int| 0 <= i < t.len() implies #[trigger] t[i] == (r@[i].0 as int, r@[i].1@) by {}
        assert forall|i: int| 0 <= i < t.len() implies occurs_in(array@, #[trigger] t[i].1) && t[i].0
            == occurrences(array@, t[i].1) by {
            assert(t[i] == (r@[i].0 as int, r@[i].1@));
        }
        assert forall|i: int, j: int| 0 <= i < j < t.len() implies #[trigger] t[i].1 != #[trigger] t[j].1 by {
            assert(t[i] == (r@[i].0 as int, r@[i].1@));
            assert(t[j] == (r@[j].0 as int, r@[j].1@));
        }
        assert forall|i: int, j: int| 0 <= i < j < t.len() implies tally_le(
            #[trigger] t[j].0,
            t[j].1,
            #[trigger] t[i].0,
            t[i].1,
        ) by {
            assert(t[i] == (r@[i].0 as int, r@[i].1@));
            assert(t[j] == (r@[j].0 as int, r@[j].1@));
        }
        assert forall|x: Seq<char>, i: int|
            #[trigger] occurs_in(array@, x) && 0 <= i < t.len() && (forall|l: int|
                0 <= l < t.len() ==> t[l].1 != x) implies tally_le(
            occurrences(array@, x) as int,
            x,
            #[trigger] t[i].0,
            t[i].1,
        ) by {
            assert(t[i] == (r@[i].0 as int, r@[i].1@));
            assert forall|l: int| 0 <= l < r@.len() implies r@[l].1@ != x by {
                assert(t[l] == (r@[l].0 as int, r@[l].1@));
            }
        }
        if t.len() < k {
            assert forall|x: Seq<char>| #[trigger] occurs_in(array@, x) implies exists|i: int|
                0 <= i < t.len() && t[i].1 == x by {
                let i = choose|i: int| 0 <= i < r@.len() && r@[i].1@ == x;
                assert(t[i] == (r@[i].0 as int, r@[i].1@));
            }
        }
    }
    r
}


/// The index of the first string of `v` equal to `target`, if any.
pub fn position_of(v: &[String], target: &String) -> (r: Option<usize>)
    ensures
        match r {
            Some(i) => i < v@.len() && v@[i as int]@ == target@ && forall|j: int|
                0 <= j < i ==> #[trigger] v@[j]@ != target@,
            None => forall|j: int| 0 <= j < v@.len() ==> #[trigger] v@[j]@ != target@,
        },
{
    let mut i: usize = 0;
    while i < v.len()
        invariant
            i <= v@.len(),
            forall|j: int| 0 <= j < i ==> #[trigger] v@[j]@ != target@,
        decreases v@.len() - i,
    {
        if v[i] == *target {
            return Some(i);
        }
        i = i + 1;
    }
    None
}

/// `x` is the most frequent string of `s`: it occurs in `s` and no string
/// of `s` comes after it in the `(count, bytes)` order.
pub open spec fn is_most_frequent(s: Seq<String>, x: Seq<char>) -> bool {
    &&& occurs_in(s, x)
    &&& forall|y: Seq<char>|
        #[trigger] occurs_in(s, y) ==> tally_le(occurrences(s, y) as int, y, occurrences(s, x) as int, x)
}

/// The most frequent string of a non-empty list (the first answer of
/// `most_frequent(s, 1)`).
pub fn top_frequent(s: &Vec<String>) -> (x: String)
    requires
        s@.len() > 0,
    ensures
        is_most_frequent(s@, x@),
{
    let r = most_frequent(s.as_slice(), 1);
    proof {
        assert(occurs_in(s@, s@[0]@));
    }
    let x = r[0].1.clone();
    proof {
        assert forall|y: Seq<char>| #[trigger] occurs_in(s@, y) implies tally_le(
            occurrences(s@, y) as int,
            y,
            occurrences(s@, x@) as int,
            x@,
        ) by {
            if y == x@ {
                lemma_bytes_le_refl(encode_utf8(y));
            } else {
                assert(r@[0].1@ != y);
            }
        }
    }
    x
}


/// The `(count, string)` pairs of a result of `most_frequent`.
pub open spec fn tallies(r: Seq<(usize, &String)>) -> Seq<(int, Seq<char>)> {
    r.map_values(|p: (usize, &String)| (p.0 as int, p.1@))
}

/// `t` is a list of the `k` most frequent strings of `array` with their
/// counts, most frequent first (fewer only when `array` has fewer distinct
/// strings): what `most_frequent(array, k)` returns.
pub open spec fn is_top_tally(array: Seq<String>, k: int, t: Seq<(int, Seq<char>)>) -> bool {
    &&& t.len() <= k
    &&& t.len() < k ==> forall|x: Seq<char>|
        #[trigger] occurs_in(array, x) ==> exists|i: int| 0 <= i < t.len() && t[i].1 == x
    &&& forall|i: int|
        0 <= i < t.len() ==> occurs_in(array, #[trigger] t[i].1) && t[i].0 == occurrences(array, t[i].1)
    &&& forall|i: int, j: int| 0 <= i < j < t.len() ==> #[trigger] t[i].1 != #[trigger] t[j].1
    &&& forall|i: int, j: int|
        0 <= i < j < t.len() ==> tally_le(#[trigger] t[j].0, t[j].1, #[trigger] t[i].0, t[i].1)
    &&& forall|x: Seq<char>, i: int|
        #[trigger] occurs_in(array, x) && 0 <= i < t.len() && (forall|l: int|
            0 <= l < t.len() ==> t[l].1 != x) ==> tally_le(
            occurrences(array, x) as int,
            x,
            #[trigger] t[i].0,
            t[i].1,
        )
}

proof fn lemma_bytes_le_antisym(a: Seq<u8>, b: Seq<u8>)
    requires
        bytes_le(a, b),
        bytes_le(b, a),
    ensures
        a == b,
    decreases a.len(),
{
    if a.len() > 0 && b.len() > 0 {
        lemma_bytes_le_antisym(a.drop_first(), b.drop_first());
        assert(a =~= seq![a[0]] + a.drop_first());
        assert(b =~= seq![b[0]] + b.drop_first());
    }
}

proof fn lemma_tally_le_antisym(c1: int, s1: Seq<char>, c2: int, s2: Seq<char>)
    requires
        tally_le(c1, s1, c2, s2),
        tally_le(c2, s2, c1, s1),
    ensures
        c1 == c2,
        s1 == s2,
{
    broadcast use vstd::utf8::encode_utf8_decode_utf8;

    lemma_bytes_le_antisym(encode_utf8(s1), encode_utf8(s2));
    assert(vstd::utf8::decode_utf8(encode_utf8(s1)) == s1);
    assert(vstd::utf8::decode_utf8(encode_utf8(s2)) == s2);
}

/// Where `t1[i]` sits against `t2[i]` when both lists agree before `i`.
proof fn lemma_top_tally_step(
    array: Seq<String>,
    k1: int,
    t1: Seq<(int, Seq<char>)>,
    k2: int,
    t2: Seq<(int, Seq<char>)>,
    i: int,
)
    requires
        is_top_tally(array, k1, t1),
        is_top_tally(array, k2, t2),
        0 <= i < t1.len(),
        i < t2.len(),
        forall|j: int| 0 <= j < i ==> t1[j] == t2[j],
    ensures
        tally_le(t1[i].0, t1[i].1, t2[i].0, t2[i].1),
{
    let x = t1[i].1;
    assert(occurs_in(array, x) && t1[i].0 == occurrences(array, x));
    if exists|p: int| 0 <= p < t2.len() && t2[p].1 == x {
        let p = choose|p: int| 0 <= p < t2.len() && t2[p].1 == x;
        assert(occurs_in(array, t2[p].1) && t2[p].0 == occurrences(array, t2[p].1));
        if p < i {
            assert(t1[p] == t2[p]);
            assert(t1[p].1 != t1[i].1);
        } else if p == i {
            lemma_bytes_le_refl(encode_utf8(x));
        } else {
            assert(tally_le(t2[p].0, t2[p].1, t2[i].0, t2[i].1));
        }
    } else {
        assert(tally_le(occurrences(array, x) as int, x, t2[i].0, t2[i].1));
    }
}

proof fn lemma_top_tally_agree(
    array: Seq<String>,
    k1: int,
    t1: Seq<(int, Seq<char>)>,
    k2: int,
    t2: Seq<(int, Seq<char>)>,
    n: int,
)
    requires
        is_top_tally(array, k1, t1),
        is_top_tally(array, k2, t2),
        0 <= n <= t1.len(),
        n <= t2.len(),
    ensures
        forall|j: int| 0 <= j < n ==> t1[j] == t2[j],
    decreases n,
{
    if n > 0 {
        lemma_top_tally_agree(array, k1, t1, k2, t2, n - 1);
        lemma_top_tally_step(array, k1, t1, k2, t2, n - 1);
        lemma_top_tally_step(array, k2, t2, k1, t1, n - 1);
        lemma_tally_le_antisym(t1[n - 1].0, t1[n - 1].1, t2[n - 1].0, t2[n - 1].1);
    }
}

/// Asking `most_frequent` for more strings only adds to the end of the
/// list: the answer for `k1 <= k2` is the first `min(k1, ..)` entries of
/// the answer for `k2`.
pub proof fn law_most_frequent_prefix(
    array: Seq<String>,
    k1: int,
    t1: Seq<(int, Seq<char>)>,
    k2: int,
    t2: Seq<(int, Seq<char>)>,
)
    requires
        k1 <= k2,
        is_top_tally(array, k1, t1),
        is_top_tally(array, k2, t2),
    ensures
        t1.len() == if t2.len() < k1 {
            t2.len() as int
        } else {
            k1
        },
        t1 == t2.take(t1.len() as int),
{
    let n = if t1.len() < t2.len() {
        t1.len() as int
    } else {
        t2.len() as int
    };
    lemma_top_tally_agree(array, k1, t1, k2, t2, n);
    if t1.len() < t2.len() && t1.len() < k1 {
        let x = t2[t1.len() as int].1;
        assert(occurs_in(array, x));
        let p = choose|p: int| 0 <= p < t1.len() && t1[p].1 == x;
        assert(t1[p] == t2[p]);
    }
    if t2.len() < t1.len() {
        let x = t1[t2.len() as int].1;
        assert(occurs_in(array, x));
        let p = choose|p: int| 0 <= p < t2.len() && t2[p].1 == x;
        assert(t1[p] == t2[p]);
    }
    assert(t1 =~= t2.take(t1.len() as int));
}

proof fn lemma_occurs_iff_counted(s: Seq<String>, x: Seq<char>)
    ensures
        occurs_in(s, x) <==> occurrences(s, x) > 0,
    decreases s.len(),
{
    if s.len() > 0 {
        let d = s.drop_last();
        lemma_occurs_iff_counted(d, x);
        if s.last()@ == x {
            assert(s[s.len() - 1]@ == x);
        } else {
            if occurs_in(s, x) {
                let i = choose|i: int| 0 <= i < s.len() && s[i]@ == x;
                assert(d[i] == s[i]);
            }
            if occurs_in(d, x) {
                let i = choose|i: int| 0 <= i < d.len() && d[i]@ == x;
                assert(d[i] == s[i]);
            }
        }
    }
}

/// The answer of `most_frequent` depends only on how often each string
/// occurs: two lists with the same counts (one a reordering of the other,
/// for one) have the same top `k` tallies.
pub proof fn law_most_frequent_order_free(
    a: Seq<String>,
    b: Seq<String>,
    k: int,
    t1: Seq<(int, Seq<char>)>,
    t2: Seq<(int, Seq<char>)>,
)
    requires
        forall|x: Seq<char>| #![trigger occurrences(a, x)] #![trigger occurrences(b, x)]
            occurrences(a, x) == occurrences(b, x),
        is_top_tally(a, k, t1),
        is_top_tally(b, k, t2),
    ensures
        t1 == t2,
{
    assert forall|x: Seq<char>| occurs_in(a, x) == occurs_in(b, x) by {
        lemma_occurs_iff_counted(a, x);
        lemma_occurs_iff_counted(b, x);
        assert(occurrences(a, x) == occurrences(b, x));
    }
    assert(is_top_tally(a, k, t2));
    law_most_frequent_prefix(a, k, t1, k, t2);
    assert(t1 =~= t2);
}

/// A list has at most one most frequent string, so the friends' answers
/// decide a single block to follow.
pub proof fn law_most_frequent_unique(s: Seq<String>, x: Seq<char>, y: Seq<char>)
    requires
        is_most_frequent(s, x),
        is_most_frequent(s, y),
    ensures
        x == y,
{
    assert(occurs_in(s, x) && occurs_in(s, y));
    lemma_tally_le_antisym(occurrences(s, x) as int, x, occurrences(s, y) as int, y);
}

} // verus!
