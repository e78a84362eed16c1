//! The listing order: names compare by their key, the name without one
//! leading `.` and case-folded, character by character; equal keys keep
//! their enumeration order.
use vstd::prelude::*;
use std::cmp::Ordering;
use crate::text::chars_of;

verus! {

/// What `str::to_lowercase` returns for a string.
pub uninterp spec fn lower_of(s: Seq<char>) -> Seq<char>;

/// Relies on str::to_lowercase: the case-folded string, a function of the
/// characters alone.
#[verifier::external_body]
fn lowercase(s: &str) -> (r: String)
    ensures
        r@ == lower_of(s@),
{
    s.to_lowercase()
}

/// `s` without one leading `.`, if it has one.
pub open spec fn strip_dot(s: Seq<char>) -> Seq<char> {
    if s.len() > 0 && s[0] == '.' {
        s.drop_first()
    } else {
        s
    }
}

/// The sort key of a name.
pub open spec fn key_spec(name: Seq<char>) -> Seq<char> {
    lower_of(strip_dot(name))
}

/// Lexicographic order by code point; a proper prefix comes first.
pub open spec fn seq_lt(a: Seq<char>, b: Seq<char>) -> bool
    decreases a.len(),
{
    if a.len() == 0 {
        b.len() > 0
    } else if b.len() == 0 {
        false
    } else if a[0] != b[0] {
        (a[0] as u32) < (b[0] as u32)
    } else {
        seq_lt(a.drop_first(), b.drop_first())
    }
}

pub proof fn lemma_lt_irreflexive(a: Seq<char>)
    ensures
        !seq_lt(a, a),
    decreases a.len(),
{
    if a.len() > 0 {
        lemma_lt_irreflexive(a.drop_first());
    }
}

pub proof fn lemma_lt_transitive(a: Seq<char>, b: Seq<char>, c: Seq<char>)
    requires
        seq_lt(a, b),
        seq_lt(b, c),
    ensures
        seq_lt(a, c),
    decreases a.len(),
{
    if a.len() > 0 && b.len() > 0 && c.len() > 0 && a[0] == b[0] && b[0] == c[0] {
        lemma_lt_transitive(a.drop_first(), b.drop_first(), c.drop_first());
    }
}

pub proof fn lemma_lt_total(a: Seq<char>, b: Seq<char>)
    ensures
        seq_lt(a, b) || seq_lt(b, a) || a == b,
    decreases a.len(),
{
    if a.len() > 0 && b.len() > 0 {
        if a[0] == b[0] {
            lemma_lt_total(a.drop_first(), b.drop_first());
            if a.drop_first() == b.drop_first() {
                assert(a =~= seq![a[0]] + a.drop_first());
                assert(b =~= seq![b[0]] + b.drop_first());
            }
        } else {
            vstd::utf8::char_u32_cast(a[0], a[0] as u32);
            vstd::utf8::char_u32_cast(b[0], b[0] as u32);
        }
    } else if a.len() == 0 && b.len() == 0 {
        assert(a =~= b);
    }
}

/// `p` holds each of `0..n` exactly once.
pub open spec fn is_permutation(p: Seq<usize>, n: nat) -> bool {
    &&& p.len() == n
    &&& forall|i: int| 0 <= i < p.len() ==> p[i] < n
    &&& forall|i: int, j: int| 0 <= i < j < p.len() ==> p[i] != p[j]
    &&& forall|k: usize| k < n ==> #[trigger] p.contains(k)
}

/// Taking `keys` in the order `p` gives non-decreasing keys, and equal keys
/// keep their order in `keys`.
pub open spec fn sorted_stably(keys: Seq<Seq<char>>, p: Seq<usize>) -> bool {
    forall|i: int, j: int|
        #![trigger p[i], p[j]]
        0 <= i < j < p.len() ==> {
            &&& !seq_lt(keys[p[j] as int], keys[p[i] as int])
            &&& (keys[p[i] as int] == keys[p[j] as int] ==> p[i] < p[j])
        }
}

/// The keys held by a vector of character vectors.
pub open spec fn views_of(v: Seq<Vec<char>>) -> Seq<Seq<char>> {
    Seq::new(v.len(), |i: int| v[i]@)
}

/// The sort key of a name.
pub fn sort_key(name: &str) -> (r: Vec<char>)
    ensures
        r@ == key_spec(name@),
{
    let n = name.unicode_len();
    let rest = if n > 0 && name.get_char(0) == '.' {
        name.substring_char(1, n)
    } else {
        name
    };
    assert(rest@ == strip_dot(name@));
    let low = lowercase(rest);
    chars_of(low.as_str())
}

/// Whether key `a` comes strictly before key `b`.
pub fn key_less(a: &Vec<char>, b: &Vec<char>) -> (r: bool)
    ensures
        r == seq_lt(a@, b@),
{
    let mut i: usize = 0;
    assert(a@.skip(0) =~= a@ && b@.skip(0) =~= b@);
    while i < a.len() && i < b.len()
        invariant
            i <= a@.len(),
            i <= b@.len(),
            seq_lt(a@, b@) == seq_lt(a@.skip(i as int), b@.skip(i as int)),
        decreases a@.len() - i,
    {
        assert(a@.skip(i as int).drop_first() =~= a@.skip(i + 1));
        assert(b@.skip(i as int).drop_first() =~= b@.skip(i + 1));
        if a[i] != b[i] {
            return (a[i] as u32) < (b[i] as u32);
        }
        i = i + 1;
    }
    i < b.len()
}

/// Compares two names by their sort keys.
pub fn ls_cmp(a: &str, b: &str) -> (r: Ordering)
    ensures
        r == Ordering::Less <==> seq_lt(key_spec(a@), key_spec(b@)),
        r == Ordering::Greater <==> seq_lt(key_spec(b@), key_spec(a@)),
        r == Ordering::Equal <==> key_spec(a@) == key_spec(b@),
{
    let ka = sort_key(a);
    let kb = sort_key(b);
    proof {
        lemma_lt_total(ka@, kb@);
        lemma_lt_irreflexive(ka@);
        if seq_lt(ka@, kb@) && seq_lt(kb@, ka@) {
            lemma_lt_transitive(ka@, kb@, ka@);
        }
    }
    if key_less(&ka, &kb) {
        Ordering::Less
    } else if key_less(&kb, &ka) {
        Ordering::Greater
    } else {
        Ordering::Equal
    }
}

/// The stable sorting order of `keys`: position `i` of the result holds the
/// index of the key that comes `i`-th.
pub fn sort_by_keys(keys: &Vec<Vec<char>>) -> (p: Vec<usize>)
    ensures
        is_permutation(p@, keys@.len()),
        sorted_stably(views_of(keys@), p@),
{
    let ghost ks = views_of(keys@);
    let n = keys.len();
    let mut res: Vec<usize> = Vec::new();
    let mut i: usize = 0;
    while i < n
        invariant
            n == keys@.len(),
            ks == views_of(keys@),
            i <= n,
            res@.len() == i,
            forall|q: int| 0 <= q < res@.len() ==> res@[q] < i,
            forall|a: int, b: int| 0 <= a < b < res@.len() ==> res@[a] != res@[b],
            forall|k: usize| k < i ==> #[trigger] res@.contains(k),
            sorted_stably(ks, res@),
        decreases n - i,
    {
        let mut p: usize = res.len();
        while p > 0 && key_less(&keys[i], &keys[res[p - 1]])
            invariant
                n == keys@.len(),
                ks == views_of(keys@),
                i < n,
                res@.len() == i,
                p <= i,
                forall|q: int| 0 <= q < res@.len() ==> res@[q] < i,
                forall|q: int| p <= q < i ==> seq_lt(ks[i as int], #[trigger] ks[res@[q] as int]),
            decreases p,
        {
            p = p - 1;
        }
        let ghost old_res = res@;
        proof {
            // everything before `p` is at most the new key
            assert forall|q: int| 0 <= q < p implies !seq_lt(ks[i as int], #[trigger] ks[old_res[q] as int]) by {
                let last = old_res[p - 1] as int;
                assert(!seq_lt(ks[i as int], ks[last]));
                if q < p - 1 {
                    assert(!seq_lt(ks[last], ks[old_res[q] as int]));
                    lemma_lt_total(ks[i as int], ks[last]);
                    lemma_lt_total(ks[last], ks[old_res[q] as int]);
                    if seq_lt(ks[i as int], ks[old_res[q] as int]) {
                        if seq_lt(ks[last], ks[i as int]) {
                            lemma_lt_transitive(ks[last], ks[i as int], ks[old_res[q] as int]);
                        }
                        if seq_lt(ks[old_res[q] as int], ks[last]) {
                            lemma_lt_transitive(ks[old_res[q] as int], ks[last], ks[i as int]);
                            lemma_lt_transitive(ks[i as int], ks[old_res[q] as int], ks[i as int]);
                            lemma_lt_irreflexive(ks[i as int]);
                        }
                    }
                }
            }
        }
        res.insert(p, i);
        proof {
            let r = res@;
            assert(r == old_res.insert(p as int, i));
            assert forall|a: int, b: int| 0 <= a < b < r.len() implies {
                &&& !seq_lt(ks[r[b] as int], ks[r[a] as int])
                &&& (ks[r[a] as int] == ks[r[b] as int] ==> r[a] < r[b])
            } by {
                if a == p {
                    let ob = b - 1;
                    assert(r[b] == old_res[ob]);
                    assert(seq_lt(ks[i as int], ks[old_res[ob] as int]));
                    lemma_lt_irreflexive(ks[i as int]);
                    if seq_lt(ks[old_res[ob] as int], ks[i as int]) {
                        lemma_lt_transitive(ks[i as int], ks[old_res[ob] as int], ks[i as int]);
                    }
                } else if b == p {
                    assert(r[a] == old_res[a]);
                    lemma_lt_total(ks[i as int], ks[old_res[a] as int]);
                } else {
                    let oa = if a < p { a } else { a - 1 };
                    let ob = if b < p { b } else { b - 1 };
                    assert(r[a] == old_res[oa]);
                    assert(r[b] == old_res[ob]);
                    assert(oa < ob);
                    assert(old_res[oa] == old_res[oa] && old_res[ob] == old_res[ob]);
                }
            }
            assert forall|k: usize| k < i + 1 implies #[trigger] r.contains(k) by {
                if k == i {
                    assert(r[p as int] == k);
                } else {
                    assert(old_res.contains(k));
                    let q0 = choose|q: int| 0 <= q < old_res.len() && old_res[q] == k;
                    if q0 < p {
                        assert(r[q0] == k);
                    } else {
                        assert(r[q0 + 1] == k);
                    }
                }
            }
            assert forall|a: int, b: int| 0 <= a < b < r.len() implies r[a] != r[b] by {
                if a != p && b != p {
                    let oa = if a < p { a } else { a - 1 };
                    let ob = if b < p { b } else { b - 1 };
                    assert(r[a] == old_res[oa] && r[b] == old_res[ob]);
                } else if a == p {
                    assert(r[b] == old_res[b - 1]);
                } else {
                    assert(r[a] == old_res[a]);
                }
            }
            assert forall|q: int| 0 <= q < r.len() implies r[q] < i + 1 by {
                if q < p {
                    assert(r[q] == old_res[q]);
                } else if q > p {
                    assert(r[q] == old_res[q - 1]);
                }
            }
        }
        i = i + 1;
    }
    res
}

/// The keys of a list of names.
pub open spec fn keys_of(names: Seq<String>) -> Seq<Seq<char>> {
    Seq::new(names.len(), |i: int| key_spec(names[i]@))
}

/// The listing order of `names`: position `i` of the result holds the index
/// of the name listed `i`-th.
pub fn sort_order(names: &Vec<String>) -> (p: Vec<usize>)
    ensures
        is_permutation(p@, names@.len()),
        sorted_stably(keys_of(names@), p@),
{
    let mut keys: Vec<Vec<char>> = Vec::new();
    let mut i: usize = 0;
    while i < names.len()
        invariant
            i <= names@.len(),
            keys@.len() == i,
            forall|j: int| 0 <= j < i ==> keys@[j]@ == key_spec(names@[j]@),
        decreases names@.len() - i,
    {
        keys.push(sort_key(names[i].as_str()));
        i = i + 1;
    }
    let p = sort_by_keys(&keys);
    assert(views_of(keys@) =~= keys_of(names@));
    p
}

} // verus!
