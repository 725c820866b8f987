//! A stable sort by composite keys: a string, then a number, then a string.
//! It stands for `sort_by_key` with keys such as `(String, (u32, String))`,
//! whose tuple order is lexicographic.

use vstd::prelude::*;

use crate::text::{lemma_lex_irreflexive, lemma_lex_trans, lex_less, lex_lt};

verus! {

/// An executable sort key.
pub type Key = (Vec<char>, u64, Vec<char>);

/// The mathematical form of a key.
pub open spec fn kv(k: Key) -> (Seq<char>, nat, Seq<char>) {
    (k.0@, k.1 as nat, k.2@)
}

/// Strict lexicographic order on keys: by the first string, then the
/// number, then the second string.
pub open spec fn key_lt(a: (Seq<char>, nat, Seq<char>), b: (Seq<char>, nat, Seq<char>)) -> bool {
    lex_lt(a.0, b.0) || (a.0 == b.0 && (a.1 < b.1 || (a.1 == b.1 && lex_lt(a.2, b.2))))
}

pub proof fn lemma_key_irreflexive(a: (Seq<char>, nat, Seq<char>))
    ensures
        !key_lt(a, a),
{
    lemma_lex_irreflexive(a.0);
    lemma_lex_irreflexive(a.2);
}

pub proof fn lemma_key_trans(
    a: (Seq<char>, nat, Seq<char>),
    b: (Seq<char>, nat, Seq<char>),
    c: (Seq<char>, nat, Seq<char>),
)
    requires
        key_lt(a, b),
        key_lt(b, c),
    ensures
        key_lt(a, c),
{
    if lex_lt(a.0, b.0) && lex_lt(b.0, c.0) {
        lemma_lex_trans(a.0, b.0, c.0);
    }
    if lex_lt(a.2, b.2) && lex_lt(b.2, c.2) {
        lemma_lex_trans(a.2, b.2, c.2);
    }
}

/// `p` lists every index below `n` exactly once.
pub open spec fn is_permutation(p: Seq<usize>, n: nat) -> bool {
    &&& p.len() == n
    &&& forall|k: int| 0 <= k < p.len() ==> p[k] < n
    &&& forall|a: int, b: int| 0 <= a < b < p.len() ==> p[a] != p[b]
}

/// Taking the keys in the order `p`, no key comes after a larger one,
/// and equal keys keep their input order.
pub open spec fn stably_sorted(keys: Seq<(Seq<char>, nat, Seq<char>)>, p: Seq<usize>) -> bool {
    &&& forall|a: int, b: int|
        0 <= a < b < p.len() ==> !key_lt(keys[p[b] as int], keys[p[a] as int])
    &&& forall|a: int, b: int|
        0 <= a < b < p.len() && keys[p[a] as int] == keys[p[b] as int] ==> p[a] < p[b]
}

fn key_less(a: &Key, b: &Key) -> (r: bool)
    ensures
        r == key_lt(kv(*a), kv(*b)),
{
    if lex_less(&a.0, &b.0) {
        return true;
    }
    if !crate::text::chars_eq(&a.0, &b.0) {
        return false;
    }
    a.1 < b.1 || (a.1 == b.1 && lex_less(&a.2, &b.2))
}

/// The stable sorting order of `keys`.
pub fn sort_order(keys: &Vec<Key>) -> (r: Vec<usize>)
    ensures
        is_permutation(r@, keys@.len()),
        stably_sorted(keys@.map_values(|k: Key| kv(k)), r@),
{
    let ghost ks = keys@.map_values(|k: Key| kv(k));
    let n = keys.len();
    let mut out: Vec<usize> = Vec::new();
    let mut i: usize = 0;
    while i < n
        invariant
            i <= n,
            n == keys@.len(),
            ks == keys@.map_values(|k: Key| kv(k)),
            out@.len() == i,
            forall|k: int| 0 <= k < out@.len() ==> out@[k] < i,
            forall|a: int, b: int| 0 <= a < b < out@.len() ==> out@[a] != out@[b],
            stably_sorted(ks, out@),
        decreases n - i,
    {
        let mut j: usize = 0;
        while j < out.len() && !key_less(&keys[i], &keys[out[j]])
            invariant
                j <= out@.len(),
                i < n,
                n == keys@.len(),
                ks == keys@.map_values(|k: Key| kv(k)),
                forall|k: int| 0 <= k < out@.len() ==> out@[k] < i,
                forall|k: int| 0 <= k < j ==> !key_lt(ks[i as int], ks[out@[k] as int]),
            decreases out@.len() - j,
        {
            j = j + 1;
        }
        let ghost old_out = out@;
        let ghost ki = ks[i as int];
        out.insert(j, i);
        proof {
            assert forall|a: int, b: int| 0 <= a < b < out@.len() implies !key_lt(
                ks[out@[b] as int],
                ks[out@[a] as int],
            ) by {
                if a < j && b == j {
                    assert(out@[a] == old_out[a]);
                } else if a < j && b > j {
                    assert(out@[a] == old_out[a]);
                    assert(out@[b] == old_out[b - 1]);
                } else if a == j && b > j {
                    let m = ks[old_out[b - 1] as int];
                    let p0 = ks[old_out[j as int] as int];
                    if key_lt(m, ki) {
                        lemma_key_trans(m, ki, p0);
                        if b - 1 == j {
                            lemma_key_irreflexive(m);
                        }
                    }
                } else if a > j {
                    assert(out@[a] == old_out[a - 1]);
                    assert(out@[b] == old_out[b - 1]);
                } else {
                    assert(out@[a] == old_out[a]);
                    assert(out@[b] == old_out[b]);
                }
            }
            assert forall|a: int, b: int|
                0 <= a < b < out@.len() && ks[out@[a] as int] == ks[out@[b] as int] implies out@[a]
                < out@[b] by {
                if a < j && b == j {
                    assert(old_out[a] < i);
                } else if a == j && b > j {
                    let m = ks[old_out[b - 1] as int];
                    let p0 = ks[old_out[j as int] as int];
                    if m == ki {
                        lemma_key_irreflexive(ki);
                    }
                } else if a < j && b > j {
                    assert(out@[a] == old_out[a]);
                    assert(out@[b] == old_out[b - 1]);
                } else if a > j {
                    assert(out@[a] == old_out[a - 1]);
                    assert(out@[b] == old_out[b - 1]);
                } else {
                    assert(out@[a] == old_out[a]);
                    assert(out@[b] == old_out[b]);
                }
            }
            assert forall|a: int, b: int| 0 <= a < b < out@.len() implies out@[a] != out@[b] by {
                if a < j && b == j {
                    assert(old_out[a] < i);
                } else if a == j && b > j {
                    assert(old_out[b - 1] < i);
                } else if a < j && b > j {
                    assert(out@[b] == old_out[b - 1]);
                } else if a > j {
                    assert(out@[a] == old_out[a - 1]);
                    assert(out@[b] == old_out[b - 1]);
                }
            }
            assert forall|k: int| 0 <= k < out@.len() implies out@[k] < i + 1 by {
                if k < j {
                    assert(out@[k] == old_out[k]);
                } else if k > j {
                    assert(out@[k] == old_out[k - 1]);
                }
            }
        }
        i = i + 1;
    }
    out
}

} // verus!
