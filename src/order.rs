//! Byte-wise lexicographic order on names, and sorting by it.
use vstd::prelude::*;

verus! {

/// `a` comes strictly before `b` in byte-wise lexicographic order.
pub open spec fn lex_lt(a: Seq<u8>, b: Seq<u8>) -> bool
    decreases a.len(),
{
    if b.len() == 0 {
        false
    } else if a.len() == 0 {
        true
    } else if a[0] != b[0] {
        a[0] < b[0]
    } else {
        lex_lt(a.drop_first(), b.drop_first())
    }
}

pub proof fn lemma_lex_irrefl(a: Seq<u8>)
    ensures
        !lex_lt(a, a),
    decreases a.len(),
{
    if a.len() > 0 {
        lemma_lex_irrefl(a.drop_first());
    }
}

pub proof fn lemma_lex_trans(a: Seq<u8>, b: Seq<u8>, c: Seq<u8>)
    requires
        lex_lt(a, b),
        lex_lt(b, c),
    ensures
        lex_lt(a, c),
    decreases a.len(),
{
    if a.len() > 0 && b.len() > 0 && c.len() > 0 && a[0] == b[0] && b[0] == c[0] {
        lemma_lex_trans(a.drop_first(), b.drop_first(), c.drop_first());
    }
}

pub proof fn lemma_lex_total(a: Seq<u8>, b: Seq<u8>)
    ensures
        lex_lt(a, b) || lex_lt(b, a) || a == b,
    decreases a.len(),
{
    if a.len() > 0 && b.len() > 0 && a[0] == b[0] {
        lemma_lex_total(a.drop_first(), b.drop_first());
        if a.drop_first() == b.drop_first() {
            assert(a =~= seq![a[0]] + a.drop_first());
            assert(b =~= seq![b[0]] + b.drop_first());
        }
    } else if a.len() == 0 && b.len() == 0 {
        assert(a =~= b);
    }
}

/// Whether `a` comes strictly before `b`.
pub fn less(a: &[u8], b: &[u8]) -> (r: bool)
    ensures
        r == lex_lt(a@, b@),
{
    let mut i: usize = 0;
    assert(a@.subrange(0, a@.len() as int) =~= a@);
    assert(b@.subrange(0, b@.len() as int) =~= b@);
    while i < a.len() && i < b.len() && a[i] == b[i]
        invariant
            i <= a@.len(),
            i <= b@.len(),
            lex_lt(a@, b@) == lex_lt(a@.subrange(i as int, a@.len() as int), b@.subrange(i as int, b@.len() as int)),
        decreases a@.len() - i,
    {
        let ghost sa = a@.subrange(i as int, a@.len() as int);
        let ghost sb = b@.subrange(i as int, b@.len() as int);
        assert(sa.drop_first() =~= a@.subrange(i + 1, a@.len() as int));
        assert(sb.drop_first() =~= b@.subrange(i + 1, b@.len() as int));
        i = i + 1;
    }
    if i == b.len() {
        false
    } else if i == a.len() {
        true
    } else {
        a[i] < b[i]
    }
}

/// `ord` lists each of `0 .. n` exactly once.
pub open spec fn is_permutation(ord: Seq<usize>, n: nat) -> bool {
    &&& ord.len() == n
    &&& ord.no_duplicates()
    &&& forall|k: int| 0 <= k < ord.len() ==> #[trigger] ord[k] < n
    &&& forall|j: usize| j < n ==> #[trigger] ord.contains(j)
}

/// The keys of `ord`, in its order, ascend strictly.
pub open spec fn sorted_by(keys: Seq<Seq<u8>>, ord: Seq<usize>) -> bool {
    forall|a: int, b: int| 0 <= a < b < ord.len() ==> lex_lt(#[trigger] keys[ord[a] as int], #[trigger] keys[ord[b] as int])
}

/// Keys that are pairwise different.
pub open spec fn distinct(keys: Seq<Seq<u8>>) -> bool {
    forall|i: int, j: int| 0 <= i < keys.len() && 0 <= j < keys.len() && i != j ==> #[trigger] keys[i] != #[trigger] keys[j]
}

/// The positions `0 .. keys.len()` ordered by ascending key.
pub fn sorted_order(keys: &Vec<Vec<u8>>) -> (ord: Vec<usize>)
    requires
        distinct(keys@.map_values(|k: Vec<u8>| k@)),
    ensures
        is_permutation(ord@, keys@.len()),
        sorted_by(keys@.map_values(|k: Vec<u8>| k@), ord@),
{
    let ghost kv = keys@.map_values(|k: Vec<u8>| k@);
    let mut ord: Vec<usize> = Vec::new();
    let mut i: usize = 0;
    while i < keys.len()
        invariant
            i <= keys@.len(),
            kv == keys@.map_values(|k: Vec<u8>| k@),
            distinct(kv),
            is_permutation(ord@, i as nat),
            sorted_by(kv, ord@),
        decreases keys@.len() - i,
    {
        let mut p: usize = 0;
        while p < ord.len() && less(keys[ord[p]].as_slice(), keys[i].as_slice())
            invariant
                p <= ord@.len(),
                i < keys@.len(),
                kv == keys@.map_values(|k: Vec<u8>| k@),
                is_permutation(ord@, i as nat),
                forall|a: int| 0 <= a < p ==> lex_lt(#[trigger] kv[ord@[a] as int], kv[i as int]),
            decreases ord@.len() - p,
        {
            assert(kv[ord@[p as int] as int] == keys@[ord@[p as int] as int]@);
            assert(kv[i as int] == keys@[i as int]@);
            p = p + 1;
        }
        let ghost old_ord = ord@;
        proof {
            if p < old_ord.len() {
                assert(kv[old_ord[p as int] as int] == keys@[old_ord[p as int] as int]@);
                assert(kv[i as int] == keys@[i as int]@);
                lemma_lex_total(kv[old_ord[p as int] as int], kv[i as int]);
                assert(old_ord[p as int] < i);
                assert(lex_lt(kv[i as int], kv[old_ord[p as int] as int]));
            }
        }
        ord.insert(p, i);
        proof {
            let o = ord@;
            assert(o =~= old_ord.subrange(0, p as int).push(i) + old_ord.subrange(p as int, old_ord.len() as int));
            assert forall|a: int, b: int| 0 <= a < b < o.len() implies lex_lt(#[trigger] kv[o[a] as int], #[trigger] kv[o[b] as int]) by {
                if b < p {
                    assert(o[a] == old_ord[a] && o[b] == old_ord[b]);
                } else if b == p {
                    assert(o[a] == old_ord[a]);
                } else if a == p {
                    assert(o[b] == old_ord[b - 1]);
                    if b - 1 > p {
                        assert(lex_lt(kv[old_ord[p as int] as int], kv[old_ord[b - 1] as int]));
                        lemma_lex_trans(kv[i as int], kv[old_ord[p as int] as int], kv[old_ord[b - 1] as int]);
                    }
                } else if a < p {
                    assert(o[a] == old_ord[a] && o[b] == old_ord[b - 1]);
                } else {
                    assert(o[a] == old_ord[a - 1] && o[b] == old_ord[b - 1]);
                }
            }
            assert forall|k: int| 0 <= k < o.len() implies #[trigger] o[k] < i + 1 by {
                if k < p {
                    assert(o[k] == old_ord[k]);
                } else if k > p {
                    assert(o[k] == old_ord[k - 1]);
                }
            }
            assert forall|j: usize| j < i + 1 implies #[trigger] o.contains(j) by {
                if j == i {
                    assert(o[p as int] == i);
                } else {
                    assert(old_ord.contains(j));
                    let a = choose|a: int| 0 <= a < old_ord.len() && old_ord[a] == j;
                    if a < p {
                        assert(o[a] == j);
                    } else {
                        assert(o[a + 1] == j);
                    }
                }
            }
            assert forall|a: int, b: int| 0 <= a < o.len() && 0 <= b < o.len() && a != b implies o[a] != o[b] by {
                if a != p && b != p {
                    let a1 = if a < p { a } else { a - 1 };
                    let b1 = if b < p { b } else { b - 1 };
                    assert(o[a] == old_ord[a1] && o[b] == old_ord[b1]);
                } else if a == p {
                    let b1 = if b < p { b } else { b - 1 };
                    assert(o[b] == old_ord[b1]);
                } else {
                    let a1 = if a < p { a } else { a - 1 };
                    assert(o[a] == old_ord[a1]);
                }
            }
        }
        i = i + 1;
    }
    ord
}

/// Only one order lists `0 .. keys.len()` by strictly ascending key.
pub proof fn lemma_sorted_order_unique(keys: Seq<Seq<u8>>, o1: Seq<usize>, o2: Seq<usize>)
    requires
        is_permutation(o1, keys.len()),
        is_permutation(o2, keys.len()),
        sorted_by(keys, o1),
        sorted_by(keys, o2),
        keys.len() <= usize::MAX,
    ensures
        o1 == o2,
{
    assert forall|i: int| 0 <= i < o1.len() implies o1[i] == o2[i] by {
        lemma_same_up_to(keys, o1, o2, i);
    }
    assert(o1 =~= o2);
}

proof fn lemma_same_up_to(keys: Seq<Seq<u8>>, o1: Seq<usize>, o2: Seq<usize>, i: int)
    requires
        is_permutation(o1, keys.len()),
        is_permutation(o2, keys.len()),
        sorted_by(keys, o1),
        sorted_by(keys, o2),
        keys.len() <= usize::MAX,
        0 <= i < o1.len(),
    ensures
        o1[i] == o2[i],
    decreases i,
{
    assert forall|k: int| 0 <= k < i implies o1[k] == o2[k] by {
        lemma_same_up_to(keys, o1, o2, k);
    }
    let x = o2[i];
    assert(o1.contains(x));
    let a = choose|a: int| 0 <= a < o1.len() && o1[a] == x;
    let y = o1[i];
    assert(o2.contains(y));
    let b = choose|b: int| 0 <= b < o2.len() && o2[b] == y;
    if a != i && b != i {
        if a < i {
            assert(o2[a] == o1[a]);
        }
        if b < i {
            assert(o1[b] == o2[b]);
        }
        assert(a > i && b > i);
        assert(lex_lt(keys[y as int], keys[x as int]));
        assert(lex_lt(keys[x as int], keys[y as int]));
        lemma_lex_trans(keys[y as int], keys[x as int], keys[y as int]);
        lemma_lex_irrefl(keys[y as int]);
    }
}

} // verus!
