//! Byte strings as dictionary keys: the lexicographic order on raw bytes,
//! and entry lists kept sorted by key with each key once.

use vstd::prelude::*;

verus! {

/// `a` and `b` hold the same bytes before position `i`.
pub open spec fn agree_before(a: Seq<u8>, b: Seq<u8>, i: int) -> bool {
    &&& 0 <= i <= a.len()
    &&& i <= b.len()
    &&& forall|j: int| 0 <= j < i ==> a[j] == b[j]
}

/// `a` comes before `b`, given that they agree before position `i`.
pub open spec fn lex_lt_from(a: Seq<u8>, b: Seq<u8>, i: int) -> bool
    decreases a.len() - i,
{
    if i >= b.len() {
        false
    } else if i >= a.len() {
        true
    } else if a[i] != b[i] {
        a[i] < b[i]
    } else {
        lex_lt_from(a, b, i + 1)
    }
}

/// The lexicographic order on raw bytes: `a` comes strictly before `b`.
pub open spec fn lex_lt(a: Seq<u8>, b: Seq<u8>) -> bool {
    lex_lt_from(a, b, 0)
}

/// Of two byte strings that agree before `i` exactly one holds: the first
/// comes before the second, they are equal, or the second comes first.
pub proof fn lemma_lex_total_from(a: Seq<u8>, b: Seq<u8>, i: int)
    requires
        agree_before(a, b, i),
    ensures
        lex_lt_from(a, b, i) || a == b || lex_lt_from(b, a, i),
        !(lex_lt_from(a, b, i) && lex_lt_from(b, a, i)),
        a == b ==> !lex_lt_from(a, b, i) && !lex_lt_from(b, a, i),
    decreases a.len() - i,
{
    if i >= a.len() && i >= b.len() {
        assert(a =~= b);
    } else if i >= a.len() || i >= b.len() {
    } else if a[i] != b[i] {
    } else {
        lemma_lex_total_from(a, b, i + 1);
    }
}

/// Of two byte strings exactly one holds: the first comes before the
/// second, they are equal, or the second comes before the first.
pub proof fn lemma_lex_total(a: Seq<u8>, b: Seq<u8>)
    ensures
        lex_lt(a, b) || a == b || lex_lt(b, a),
        !(lex_lt(a, b) && lex_lt(b, a)),
        a == b ==> !lex_lt(a, b) && !lex_lt(b, a),
{
    lemma_lex_total_from(a, b, 0);
}

/// The order is transitive among byte strings that agree before `i`.
pub proof fn lemma_lex_trans_from(a: Seq<u8>, b: Seq<u8>, c: Seq<u8>, i: int)
    requires
        agree_before(a, b, i),
        agree_before(b, c, i),
        lex_lt_from(a, b, i),
        lex_lt_from(b, c, i),
    ensures
        lex_lt_from(a, c, i),
    decreases a.len() - i,
{
    if i < a.len() && a[i] == b[i] && b[i] == c[i] {
        lemma_lex_trans_from(a, b, c, i + 1);
    }
}

/// The order is transitive.
pub proof fn lemma_lex_trans(a: Seq<u8>, b: Seq<u8>, c: Seq<u8>)
    requires
        lex_lt(a, b),
        lex_lt(b, c),
    ensures
        lex_lt(a, c),
{
    lemma_lex_trans_from(a, b, c, 0);
}

/// How two keys stand to each other.
#[derive(Debug, Clone, Copy, PartialEq, Eq)]
pub enum KeyOrder {
    Before,
    Same,
    After,
}

/// Compares two keys byte by byte.
pub fn key_order(a: &[u8], b: &[u8]) -> (r: KeyOrder)
    ensures
        r == KeyOrder::Before <==> lex_lt(a@, b@),
        r == KeyOrder::Same <==> a@ == b@,
        r == KeyOrder::After <==> lex_lt(b@, a@),
{
    let mut i: usize = 0;
    proof {
        lemma_lex_total(a@, b@);
    }
    while i < a.len() && i < b.len()
        invariant
            agree_before(a@, b@, i as int),
            lex_lt(a@, b@) == lex_lt_from(a@, b@, i as int),
            lex_lt(b@, a@) == lex_lt_from(b@, a@, i as int),
        decreases a.len() - i,
    {
        if a[i] < b[i] {
            return KeyOrder::Before;
        }
        if a[i] > b[i] {
            return KeyOrder::After;
        }
        i = i + 1;
    }
    if i < b.len() {
        KeyOrder::Before
    } else if i < a.len() {
        KeyOrder::After
    } else {
        proof {
            assert(a@ =~= b@);
        }
        KeyOrder::Same
    }
}

/// The keys of `e` ascend strictly, so no key occurs twice.
pub open spec fn keys_sorted<T>(e: Seq<(Seq<u8>, T)>) -> bool {
    forall|i: int, j: int| 0 <= i < j < e.len() ==> lex_lt(#[trigger] e[i].0, #[trigger] e[j].0)
}

/// The first position at or after `i` whose key does not come before
/// `key`; the length of `e` if there is none.
pub open spec fn rank_from<T>(e: Seq<(Seq<u8>, T)>, key: Seq<u8>, i: int) -> int
    decreases e.len() - i,
{
    if 0 <= i < e.len() && lex_lt(e[i].0, key) {
        rank_from(e, key, i + 1)
    } else {
        i
    }
}

/// `e` with `key` bound to `value`: a new entry at the key's place in the
/// order, or the value replaced where the key is already bound.
pub open spec fn insert_entry<T>(e: Seq<(Seq<u8>, T)>, key: Seq<u8>, value: T) -> Seq<
    (Seq<u8>, T),
> {
    let p = rank_from(e, key, 0);
    if 0 <= p < e.len() && e[p].0 == key {
        e.update(p, (key, value))
    } else {
        e.insert(p, (key, value))
    }
}

/// The entries of `pairs` bound one after another, from the first on: the
/// last binding of a key is the one that stays.
pub open spec fn sorted_entries<T>(pairs: Seq<(Seq<u8>, T)>) -> Seq<(Seq<u8>, T)>
    decreases pairs.len(),
{
    if pairs.len() == 0 {
        Seq::empty()
    } else {
        insert_entry(sorted_entries(pairs.drop_last()), pairs.last().0, pairs.last().1)
    }
}

/// The rank of a key lies behind the entries that come before the key,
/// and at an entry that does not.
pub proof fn lemma_rank_from<T>(e: Seq<(Seq<u8>, T)>, key: Seq<u8>, i: int)
    requires
        0 <= i <= e.len(),
    ensures
        i <= rank_from(e, key, i) <= e.len(),
        forall|j: int| i <= j < rank_from(e, key, i) ==> lex_lt(#[trigger] e[j].0, key),
        rank_from(e, key, i) < e.len() ==> !lex_lt(e[rank_from(e, key, i)].0, key),
    decreases e.len() - i,
{
    if i < e.len() && lex_lt(e[i].0, key) {
        lemma_rank_from(e, key, i + 1);
    }
}

/// A key that comes behind every entry has its rank at the end.
pub proof fn lemma_rank_all_before<T>(e: Seq<(Seq<u8>, T)>, key: Seq<u8>, i: int)
    requires
        0 <= i <= e.len(),
        forall|j: int| i <= j < e.len() ==> lex_lt(#[trigger] e[j].0, key),
    ensures
        rank_from(e, key, i) == e.len(),
    decreases e.len() - i,
{
    if i < e.len() {
        lemma_rank_all_before(e, key, i + 1);
    }
}

/// Binding a key keeps a sorted entry list sorted.
pub proof fn lemma_insert_sorted<T>(e: Seq<(Seq<u8>, T)>, key: Seq<u8>, value: T)
    requires
        keys_sorted(e),
    ensures
        keys_sorted(insert_entry(e, key, value)),
{
    let p = rank_from(e, key, 0);
    let r = insert_entry(e, key, value);
    lemma_rank_from(e, key, 0);
    if p < e.len() && e[p].0 == key {
        assert forall|i: int, j: int| 0 <= i < j < r.len() implies lex_lt(
            #[trigger] r[i].0,
            #[trigger] r[j].0,
        ) by {
            assert(r[i].0 == e[i].0);
            assert(r[j].0 == e[j].0);
        }
    } else {
        assert forall|i: int, j: int| 0 <= i < j < r.len() implies lex_lt(
            #[trigger] r[i].0,
            #[trigger] r[j].0,
        ) by {
            if j < p {
                assert(r[i] == e[i] && r[j] == e[j]);
            } else if j == p {
                assert(r[i] == e[i]);
            } else if i == p {
                assert(r[j] == e[j - 1]);
                lemma_lex_total(e[p].0, key);
                if j - 1 > p {
                    assert(lex_lt(e[p].0, e[j - 1].0));
                    lemma_lex_trans(key, e[p].0, e[j - 1].0);
                }
            } else if i < p {
                assert(r[i] == e[i] && r[j] == e[j - 1]);
            } else {
                assert(r[i] == e[i - 1] && r[j] == e[j - 1]);
            }
        }
    }
}

/// Whatever the pairs, binding them one after another gives a sorted list.
pub proof fn lemma_sorted_entries_sorted<T>(pairs: Seq<(Seq<u8>, T)>)
    ensures
        keys_sorted(sorted_entries(pairs)),
    decreases pairs.len(),
{
    if pairs.len() > 0 {
        lemma_sorted_entries_sorted(pairs.drop_last());
        lemma_insert_sorted(sorted_entries(pairs.drop_last()), pairs.last().0, pairs.last().1);
    }
}

/// A list that is sorted already is left as it is.
pub proof fn lemma_sorted_entries_fixed<T>(e: Seq<(Seq<u8>, T)>)
    requires
        keys_sorted(e),
    ensures
        sorted_entries(e) == e,
    decreases e.len(),
{
    if e.len() > 0 {
        let head = e.drop_last();
        assert forall|i: int, j: int| 0 <= i < j < head.len() implies lex_lt(
            #[trigger] head[i].0,
            #[trigger] head[j].0,
        ) by {
            assert(head[i] == e[i] && head[j] == e[j]);
        }
        lemma_sorted_entries_fixed(head);
        assert forall|j: int| 0 <= j < head.len() implies lex_lt(
            #[trigger] head[j].0,
            e.last().0,
        ) by {
            assert(head[j] == e[j]);
            assert(lex_lt(e[j].0, e[e.len() - 1].0));
        }
        lemma_rank_all_before(head, e.last().0, 0);
        assert(insert_entry(head, e.last().0, e.last().1) =~= e);
    } else {
        assert(sorted_entries(e) =~= e);
    }
}

} // verus!

verus! {

/// `e` with `g` applied to what each key is bound to.
pub open spec fn map_bound<T, U>(e: Seq<(Seq<u8>, T)>, g: spec_fn(T) -> U) -> Seq<(Seq<u8>, U)> {
    Seq::new(e.len(), |i: int| (e[i].0, g(e[i].1)))
}

/// The rank of a key does not depend on what the keys are bound to.
pub proof fn lemma_rank_map_bound<T, U>(
    e: Seq<(Seq<u8>, T)>,
    g: spec_fn(T) -> U,
    key: Seq<u8>,
    i: int,
)
    requires
        0 <= i <= e.len(),
    ensures
        rank_from(map_bound(e, g), key, i) == rank_from(e, key, i),
    decreases e.len() - i,
{
    if i < e.len() && lex_lt(e[i].0, key) {
        lemma_rank_map_bound(e, g, key, i + 1);
    }
}

/// Where the entries land depends on their keys alone: to bind pairs and
/// then change the values is to change the values and then bind.
pub proof fn lemma_sorted_entries_map_bound<T, U>(pairs: Seq<(Seq<u8>, T)>, g: spec_fn(T) -> U)
    ensures
        sorted_entries(map_bound(pairs, g)) == map_bound(sorted_entries(pairs), g),
    decreases pairs.len(),
{
    if pairs.len() == 0 {
        assert(sorted_entries(map_bound(pairs, g)) =~= map_bound(sorted_entries(pairs), g));
    } else {
        let head = pairs.drop_last();
        lemma_sorted_entries_map_bound(head, g);
        assert(map_bound(pairs, g).drop_last() =~= map_bound(head, g));
        let e = sorted_entries(head);
        let k = pairs.last().0;
        lemma_rank_map_bound(e, g, k, 0);
        lemma_rank_from(e, k, 0);
        assert(insert_entry(map_bound(e, g), k, g(pairs.last().1)) =~= map_bound(
            insert_entry(e, k, pairs.last().1),
            g,
        ));
    }
}

} // verus!
