use vstd::prelude::*;
use vstd::set_lib::{lemma_int_range, set_int_range};
use crate::canonical::{
    entries_text, entry_before, index_of_rank, items_text, key_less, rank, rank_below,
    value_text, CanonicalValue, Entry,
};

verus! {

/// No two entries share a key.
pub open spec fn distinct_keys(es: Seq<Entry>) -> bool {
    forall|i: int, j: int|
        0 <= i < es.len() && 0 <= j < es.len() && i != j ==> es[i].0@ != es[j].0@
}

/// Every key of `a` is a key of `b`.
pub open spec fn keys_within(a: Seq<Entry>, b: Seq<Entry>) -> bool {
    forall|i: int| 0 <= i < a.len() ==> exists|j: int| 0 <= j < b.len() && b[j].0@ == (#[trigger] a[i]).0@
}

/// Two mappings with distinct keys hold the same keys, and under each key
/// the same tree.
pub open spec fn entries_match(es: Seq<Entry>, fs: Seq<Entry>) -> bool
    decreases es, 0int,
{
    &&& es.len() == fs.len()
    &&& distinct_keys(es)
    &&& distinct_keys(fs)
    &&& forall|i: int|
        0 <= i < es.len() ==> exists|j: int|
            0 <= j < fs.len() && fs[j].0@ == (#[trigger] es[i]).0@ && same_tree(es[i].1, fs[j].1)
    &&& forall|j: int|
        0 <= j < fs.len() ==> exists|i: int|
            0 <= i < es.len() && es[i].0@ == (#[trigger] fs[j]).0@ && same_tree(es[i].1, fs[j].1)
}

/// `a` and `b` are the same tree up to the order in which mapping entries
/// were added: equal scalars, sequences equal element by element, and
/// mappings with distinct keys holding the same keys with the same trees.
pub open spec fn same_tree(a: CanonicalValue, b: CanonicalValue) -> bool
    decreases a, 1int,
{
    match a {
        CanonicalValue::Sequence(xs) => {
            &&& b is Sequence
            &&& xs@.len() == b->Sequence_0@.len()
            &&& forall|i: int|
                0 <= i < xs@.len() ==> same_tree(#[trigger] xs@[i], b->Sequence_0@[i])
        },
        CanonicalValue::Mapping(es) => {
            &&& b is Mapping
            &&& es@.len() == b->Mapping_0@.len()
            &&& entries_match(es@, b->Mapping_0@)
        },
        _ => a == b,
    }
}

/// The keys of the first `n` entries.
pub open spec fn key_set(es: Seq<Entry>, n: int) -> Set<Seq<char>>
    decreases n,
{
    if n <= 0 {
        Set::empty()
    } else {
        key_set(es, n - 1).insert(es[n - 1].0@)
    }
}

pub open spec fn keys_below(ks: Set<Seq<char>>, k: Seq<char>) -> Set<Seq<char>> {
    ks.filter(|x: Seq<char>| key_less(x, k))
}

proof fn lemma_key_irreflexive(a: Seq<char>)
    ensures
        !key_less(a, a),
    decreases a.len(),
{
    if a.len() > 0 {
        lemma_key_irreflexive(a.drop_first());
    }
}

proof fn lemma_key_total(a: Seq<char>, b: Seq<char>)
    ensures
        a == b || key_less(a, b) || key_less(b, a),
        !(key_less(a, b) && key_less(b, a)),
    decreases a.len(),
{
    if a.len() > 0 && b.len() > 0 && a[0] == b[0] {
        lemma_key_total(a.drop_first(), b.drop_first());
        if a.drop_first() == b.drop_first() {
            assert forall|i: int| 0 <= i < a.len() implies a[i] == b[i] by {
                if i > 0 {
                    assert(a[i] == a.drop_first()[i - 1]);
                    assert(b[i] == b.drop_first()[i - 1]);
                }
            }
            assert(a =~= b);
        }
    } else if a.len() == 0 && b.len() == 0 {
        assert(a =~= b);
    }
}

proof fn lemma_key_transitive(a: Seq<char>, b: Seq<char>, c: Seq<char>)
    requires
        key_less(a, b),
        key_less(b, c),
    ensures
        key_less(a, c),
    decreases a.len(),
{
    if a.len() > 0 && a[0] == b[0] && b[0] == c[0] {
        lemma_key_transitive(a.drop_first(), b.drop_first(), c.drop_first());
    }
}

proof fn lemma_key_set_members(es: Seq<Entry>, n: int)
    requires
        0 <= n <= es.len(),
    ensures
        key_set(es, n).finite(),
        forall|k: Seq<char>|
            key_set(es, n).contains(k) <==> exists|j: int| 0 <= j < n && (#[trigger] es[j]).0@ == k,
    decreases n,
{
    if n > 0 {
        lemma_key_set_members(es, n - 1);
        assert forall|k: Seq<char>|
            key_set(es, n).contains(k) implies exists|j: int|
                0 <= j < n && (#[trigger] es[j]).0@ == k by {
            if k != es[n - 1].0@ {
                assert(key_set(es, n - 1).contains(k));
            }
        }
    }
}

/// With distinct keys, the rank of an entry counts the keys below its own.
proof fn lemma_rank_counts_keys(es: Seq<Entry>, i: int, n: int)
    requires
        distinct_keys(es),
        0 <= i < es.len(),
        0 <= n <= es.len(),
    ensures
        keys_below(key_set(es, n), es[i].0@).finite(),
        rank_below(es, i, n) == keys_below(key_set(es, n), es[i].0@).len(),
    decreases n,
{
    lemma_key_set_members(es, n);
    key_set(es, n).lemma_len_filter(|x: Seq<char>| key_less(x, es[i].0@));
    if n > 0 {
        lemma_rank_counts_keys(es, i, n - 1);
        lemma_key_set_members(es, n - 1);
        let s = key_set(es, n - 1);
        let x = es[n - 1].0@;
        let k = es[i].0@;
        assert(!s.contains(x));
        assert(entry_before(es, n - 1, i) == key_less(x, k));
        if key_less(x, k) {
            assert(keys_below(s.insert(x), k) =~= keys_below(s, k).insert(x));
        } else {
            assert(keys_below(s.insert(x), k) =~= keys_below(s, k));
        }
    }
}

/// With distinct keys, an entry with a smaller key has a smaller rank.
proof fn lemma_rank_monotone(es: Seq<Entry>, i: int, j: int)
    requires
        distinct_keys(es),
        0 <= i < es.len(),
        0 <= j < es.len(),
        key_less(es[i].0@, es[j].0@),
    ensures
        rank(es, i) < rank(es, j),
{
    let n = es.len() as int;
    let (lo, hi) = (es[i].0@, es[j].0@);
    lemma_rank_counts_keys(es, i, n);
    lemma_rank_counts_keys(es, j, n);
    lemma_key_set_members(es, n);
    let ks = key_set(es, n);
    assert forall|x: Seq<char>| keys_below(ks, lo).contains(x) implies keys_below(
        ks,
        hi,
    ).contains(x) by {
        lemma_key_transitive(x, lo, hi);
    }
    lemma_key_irreflexive(lo);
    assert(ks.contains(lo));
    keys_below(ks, lo).lemma_subset_not_in_lt(keys_below(ks, hi), lo);
}

/// With distinct keys, two entries never share a rank.
proof fn lemma_ranks_distinct(es: Seq<Entry>, i: int, j: int)
    requires
        distinct_keys(es),
        0 <= i < es.len(),
        0 <= j < es.len(),
        i != j,
    ensures
        rank(es, i) != rank(es, j),
{
    lemma_key_total(es[i].0@, es[j].0@);
    if key_less(es[i].0@, es[j].0@) {
        lemma_rank_monotone(es, i, j);
    } else {
        lemma_rank_monotone(es, j, i);
    }
}

/// The search for rank `k` ends at an index of that rank, or past the end
/// when no index from `from` on has it.
proof fn lemma_index_of_rank(es: Seq<Entry>, k: nat, from: int)
    requires
        0 <= from <= es.len(),
    ensures
        index_of_rank(es, k, from) == es.len() ==> forall|i: int|
            from <= i < es.len() ==> rank(es, i) != k,
        index_of_rank(es, k, from) != es.len() ==> from <= index_of_rank(es, k, from) < es.len()
            && rank(es, index_of_rank(es, k, from)) == k,
    decreases es.len() - from,
{
    if from < es.len() && rank(es, from) != k {
        lemma_index_of_rank(es, k, from + 1);
    }
}

/// Entries `i` of `a` and `j` of `b` with the same key have the same rank
/// when both hold the same keys.
proof fn lemma_same_rank(a: Seq<Entry>, b: Seq<Entry>, i: int, j: int)
    requires
        distinct_keys(a),
        distinct_keys(b),
        keys_within(a, b),
        keys_within(b, a),
        0 <= i < a.len(),
        0 <= j < b.len(),
        a[i].0@ == b[j].0@,
    ensures
        rank(a, i) == rank(b, j),
{
    lemma_rank_counts_keys(a, i, a.len() as int);
    lemma_rank_counts_keys(b, j, b.len() as int);
    lemma_key_set_members(a, a.len() as int);
    lemma_key_set_members(b, b.len() as int);
    assert forall|k: Seq<char>| key_set(a, a.len() as int).contains(k) implies key_set(
        b,
        b.len() as int,
    ).contains(k) by {
        let x = choose|x: int| 0 <= x < a.len() && (#[trigger] a[x]).0@ == k;
        assert(a[x].0@ == k);
    }
    assert forall|k: Seq<char>| key_set(b, b.len() as int).contains(k) implies key_set(
        a,
        a.len() as int,
    ).contains(k) by {
        let x = choose|x: int| 0 <= x < b.len() && (#[trigger] b[x]).0@ == k;
        assert(b[x].0@ == k);
    }
    assert(key_set(a, a.len() as int) =~= key_set(b, b.len() as int));
}

/// The entry written at position `k` is the same in `a` and `b`.
proof fn lemma_same_entry_at(a: Seq<Entry>, b: Seq<Entry>, k: nat)
    requires
        distinct_keys(a),
        distinct_keys(b),
        keys_within(a, b),
        keys_within(b, a),
    ensures
        ({
            let i = index_of_rank(a, k, 0);
            let j = index_of_rank(b, k, 0);
            (i == a.len() <==> j == b.len()) && (i != a.len() ==> a[i].0@ == b[j].0@)
        }),
{
    let i = index_of_rank(a, k, 0);
    let j = index_of_rank(b, k, 0);
    lemma_index_of_rank(a, k, 0);
    lemma_index_of_rank(b, k, 0);
    if i != a.len() {
        let jj = choose|jj: int| 0 <= jj < b.len() && b[jj].0@ == (#[trigger] a[i]).0@;
        assert(b[jj].0@ == a[i].0@);
        lemma_same_rank(a, b, i, jj);
        if j != jj {
            if j == b.len() {
                assert(rank(b, jj) != k);
            } else {
                lemma_ranks_distinct(b, j, jj);
            }
        }
    }
    if j != b.len() {
        let ii = choose|ii: int| 0 <= ii < a.len() && a[ii].0@ == (#[trigger] b[j]).0@;
        assert(a[ii].0@ == b[j].0@);
        lemma_same_rank(a, b, ii, j);
        if i == a.len() {
            assert(rank(a, ii) != k);
        }
    }
}

proof fn lemma_items_text_equal(xs: Seq<CanonicalValue>, ys: Seq<CanonicalValue>, n: int)
    requires
        xs.len() == ys.len(),
        forall|i: int| 0 <= i < xs.len() ==> same_tree(#[trigger] xs[i], ys[i]),
    ensures
        items_text(xs, n) == items_text(ys, n),
    decreases xs, n,
{
    if 0 < n <= xs.len() {
        lemma_items_text_equal(xs, ys, n - 1);
        assert(decreases_to!(xs => xs[n - 1]));
        lemma_same_text(xs[n - 1], ys[n - 1]);
        if n > 1 {
            assert(decreases_to!(xs => xs[0]));
        }
        lemma_same_text(xs[0], ys[0]);
    }
}

proof fn lemma_entries_text_equal(es: Seq<Entry>, fs: Seq<Entry>, k: int)
    requires
        entries_match(es, fs),
    ensures
        entries_text(es, k) == entries_text(fs, k),
    decreases es, k,
{
    if k > 0 {
        lemma_entries_text_equal(es, fs, k - 1);
        assert(keys_within(es, fs)) by {
            assert forall|i: int| 0 <= i < es.len() implies exists|j: int|
                0 <= j < fs.len() && fs[j].0@ == (#[trigger] es[i]).0@ by {
                let j = choose|j: int|
                    0 <= j < fs.len() && fs[j].0@ == (#[trigger] es[i]).0@ && same_tree(es[i].1, fs[j].1);
            }
        }
        assert(keys_within(fs, es)) by {
            assert forall|j: int| 0 <= j < fs.len() implies exists|i: int|
                0 <= i < es.len() && es[i].0@ == (#[trigger] fs[j]).0@ by {
                let i = choose|i: int|
                    0 <= i < es.len() && es[i].0@ == (#[trigger] fs[j]).0@ && same_tree(es[i].1, fs[j].1);
            }
        }
        lemma_same_entry_at(es, fs, (k - 1) as nat);
        lemma_index_of_rank(es, (k - 1) as nat, 0);
        lemma_index_of_rank(fs, (k - 1) as nat, 0);
        let i = index_of_rank(es, (k - 1) as nat, 0);
        let j = index_of_rank(fs, (k - 1) as nat, 0);
        if i != es.len() {
            let jj = choose|jj: int|
                0 <= jj < fs.len() && fs[jj].0@ == (#[trigger] es[i]).0@ && same_tree(es[i].1, fs[jj].1);
            assert(jj == j);
            assert(decreases_to!(es => es[i]));
            assert(decreases_to!(es[i] => es[i].1));
            lemma_same_text(es[i].1, fs[j].1);
        }
    }
}

/// An entry is never written before itself, so its rank is below the count.
proof fn lemma_rank_below_bound(es: Seq<Entry>, i: int, n: int)
    requires
        0 <= i < es.len(),
        0 <= n <= es.len(),
    ensures
        rank_below(es, i, n) + (if i < n { 1int } else { 0int }) <= n,
    decreases n,
{
    if n > 0 {
        lemma_rank_below_bound(es, i, n - 1);
        lemma_key_irreflexive(es[i].0@);
    }
}

/// The ranks of the first `m` entries.
spec fn rank_set(es: Seq<Entry>, m: int) -> Set<int>
    decreases m,
{
    if m <= 0 {
        Set::empty()
    } else {
        rank_set(es, m - 1).insert(rank(es, m - 1) as int)
    }
}

proof fn lemma_rank_set(es: Seq<Entry>, m: int)
    requires
        distinct_keys(es),
        0 <= m <= es.len(),
    ensures
        rank_set(es, m).finite(),
        rank_set(es, m).len() == m,
        rank_set(es, m).subset_of(set_int_range(0, es.len() as int)),
        forall|r: int| rank_set(es, m).contains(r) ==> exists|i: int| 0 <= i < m && rank(es, i) == r,
    decreases m,
{
    if m > 0 {
        lemma_rank_set(es, m - 1);
        let r = rank(es, m - 1) as int;
        assert(!rank_set(es, m - 1).contains(r)) by {
            if rank_set(es, m - 1).contains(r) {
                let i = choose|i: int| 0 <= i < m - 1 && rank(es, i) == r;
                lemma_ranks_distinct(es, i, m - 1);
            }
        }
        lemma_rank_below_bound(es, m - 1, es.len() as int);
    }
}

/// In a mapping with distinct keys every position is taken: each entry is
/// written exactly once.
pub proof fn lemma_every_position_written(es: Seq<Entry>, k: nat)
    requires
        distinct_keys(es),
        k < es.len(),
    ensures
        index_of_rank(es, k, 0) < es.len(),
{
    let n = es.len() as int;
    lemma_rank_set(es, n);
    lemma_int_range(0, n);
    if !rank_set(es, n).contains(k as int) {
        rank_set(es, n).lemma_subset_not_in_lt(set_int_range(0, n), k as int);
    }
    lemma_index_of_rank(es, k, 0);
}

/// In a mapping with distinct keys, of two entries written at positions
/// `k1 < k2`, the first has the smaller key.
pub proof fn lemma_keys_ascending(es: Seq<Entry>, k1: nat, k2: nat)
    requires
        distinct_keys(es),
        k1 < k2 < es.len(),
    ensures
        index_of_rank(es, k1, 0) < es.len(),
        index_of_rank(es, k2, 0) < es.len(),
        key_less(es[index_of_rank(es, k1, 0)].0@, es[index_of_rank(es, k2, 0)].0@),
{
    lemma_every_position_written(es, k1);
    lemma_every_position_written(es, k2);
    let i = index_of_rank(es, k1, 0);
    let j = index_of_rank(es, k2, 0);
    lemma_index_of_rank(es, k1, 0);
    lemma_index_of_rank(es, k2, 0);
    lemma_key_total(es[i].0@, es[j].0@);
    if key_less(es[j].0@, es[i].0@) {
        lemma_rank_monotone(es, j, i);
    }
}

/// Trees that differ only in the order in which mapping entries were added,
/// at any depth, have the same canonical text.
pub proof fn lemma_same_text(a: CanonicalValue, b: CanonicalValue)
    requires
        same_tree(a, b),
    ensures
        value_text(a) == value_text(b),
    decreases a, 0int,
{
    match a {
        CanonicalValue::Sequence(xs) => {
            assert(decreases_to!(a => a->Sequence_0));
            assert(decreases_to!(a->Sequence_0 => xs@));
            let ys = b->Sequence_0;
            lemma_items_text_equal(xs@, ys@, xs@.len() as int);
            assert(b == CanonicalValue::Sequence(ys));
            assert(value_text(b) == seq!['['] + items_text(ys@, ys@.len() as int) + seq![']']);
        },
        CanonicalValue::Mapping(es) => {
            assert(decreases_to!(a => a->Mapping_0));
            assert(decreases_to!(a->Mapping_0 => es@));
            let fs = b->Mapping_0;
            lemma_entries_text_equal(es@, fs@, es@.len() as int);
            assert(b == CanonicalValue::Mapping(fs));
            assert(value_text(b) == seq!['{'] + entries_text(fs@, fs@.len() as int) + seq!['}']);

        },
        _ => {
            assert(a == b);
        },
    }
}

} // verus!
