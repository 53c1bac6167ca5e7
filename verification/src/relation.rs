//! Relations as sequences of rows: keys, uniqueness, and what removing the
//! rows with a given key does.

use vstd::prelude::*;

verus! {

/// No two rows of `s` have the same key.
pub open spec fn keys_unique<A>(s: Seq<A>, key: spec_fn(A) -> u64) -> bool {
    forall|i: int, j: int|
        0 <= i < s.len() && 0 <= j < s.len() && i != j ==> #[trigger] key(s[i]) != #[trigger] key(
            s[j],
        )
}

/// Some row of `s` has key `k`.
pub open spec fn has_key<A>(s: Seq<A>, key: spec_fn(A) -> u64, k: u64) -> bool {
    exists|i: int| 0 <= i < s.len() && #[trigger] key(s[i]) == k
}

/// The position of a row with key `k`.
pub open spec fn position_of<A>(s: Seq<A>, key: spec_fn(A) -> u64, k: u64) -> int {
    choose|i: int| 0 <= i < s.len() && #[trigger] key(s[i]) == k
}

/// The predicate that holds of the rows whose key is not `k`.
pub open spec fn differs<A>(key: spec_fn(A) -> u64, k: u64) -> spec_fn(A) -> bool {
    |a: A| key(a) != k
}

/// The predicate that holds of the rows whose key is `k`.
pub open spec fn matches_key<A>(key: spec_fn(A) -> u64, k: u64) -> spec_fn(A) -> bool {
    |a: A| key(a) == k
}

/// The rows of `s` whose key is not `k`, in their order.
pub open spec fn without<A>(s: Seq<A>, key: spec_fn(A) -> u64, k: u64) -> Seq<A> {
    s.filter(differs(key, k))
}

/// The rows of `s` whose key is `k`, in their order.
pub open spec fn selected<A>(s: Seq<A>, key: spec_fn(A) -> u64, k: u64) -> Seq<A> {
    s.filter(matches_key(key, k))
}

/// Filtering one row more: the row is kept or dropped as the predicate says.
pub proof fn lemma_filter_step<A>(s: Seq<A>, pred: spec_fn(A) -> bool, j: int)
    requires
        0 <= j < s.len(),
    ensures
        s.take(j + 1).filter(pred) == if pred(s[j]) {
            s.take(j).filter(pred).push(s[j])
        } else {
            s.take(j).filter(pred)
        },
{
    reveal(Seq::filter);
    assert(s.take(j + 1).drop_last() =~= s.take(j));
    assert(s.take(j + 1).last() == s[j]);
}

/// Filtering nothing gives nothing.
pub proof fn lemma_filter_empty<A>(s: Seq<A>, pred: spec_fn(A) -> bool)
    requires
        s.len() == 0,
    ensures
        s.filter(pred) == Seq::<A>::empty(),
{
    reveal(Seq::filter);
    assert(s =~= Seq::<A>::empty());
}

/// A row is among the filtered rows exactly when it is a row of `s` that the
/// predicate holds of.
pub proof fn lemma_filter_contains<A>(s: Seq<A>, pred: spec_fn(A) -> bool, a: A)
    ensures
        s.filter(pred).contains(a) <==> s.contains(a) && pred(a),
    decreases s.len(),
{
    reveal(Seq::filter);
    if s.len() > 0 {
        let rest = s.drop_last();
        lemma_filter_contains(rest, pred, a);
        let kept = rest.filter(pred);
        if s.contains(a) && pred(a) {
            let i = choose|i: int| 0 <= i < s.len() && s[i] == a;
            if i == s.len() - 1 {
                assert(kept.push(s.last())[kept.len() as int] == a);
            } else {
                assert(rest[i] == a);
                assert(rest.contains(a));
                let m = choose|m: int| 0 <= m < kept.len() && kept[m] == a;
                assert(s.filter(pred)[m] == a);
            }
        }
        if s.filter(pred).contains(a) {
            let m = choose|m: int| 0 <= m < s.filter(pred).len() && s.filter(pred)[m] == a;
            if pred(s.last()) && m == kept.len() {
                assert(s[s.len() - 1] == a);
            } else {
                assert(kept[m] == a);
                assert(kept.contains(a));
                let i = choose|i: int| 0 <= i < rest.len() && rest[i] == a;
                assert(s[i] == a);
            }
        }
    }
}

/// After the rows with key `k` are removed, a key is present exactly when it
/// was present before and is not `k`.
pub proof fn lemma_without_has_key<A>(s: Seq<A>, key: spec_fn(A) -> u64, k: u64, other: u64)
    ensures
        has_key(without(s, key, k), key, other) <==> has_key(s, key, other) && other != k,
{
    let kept = without(s, key, k);
    if has_key(kept, key, other) {
        let m = choose|m: int| 0 <= m < kept.len() && #[trigger] key(kept[m]) == other;
        lemma_filter_contains(s, differs(key, k), kept[m]);
        assert(kept.contains(kept[m]));
        let i = choose|i: int| 0 <= i < s.len() && s[i] == kept[m];
        assert(key(s[i]) == other);
    }
    if has_key(s, key, other) && other != k {
        let i = choose|i: int| 0 <= i < s.len() && #[trigger] key(s[i]) == other;
        lemma_filter_contains(s, differs(key, k), s[i]);
        assert(s.contains(s[i]));
        let m = choose|m: int| 0 <= m < kept.len() && kept[m] == s[i];
        assert(key(kept[m]) == other);
    }
}

/// Filtering keeps keys unique.
pub proof fn lemma_filter_keeps_unique<A>(
    s: Seq<A>,
    key: spec_fn(A) -> u64,
    pred: spec_fn(A) -> bool,
)
    requires
        keys_unique(s, key),
    ensures
        keys_unique(s.filter(pred), key),
    decreases s.len(),
{
    reveal(Seq::filter);
    if s.len() > 0 {
        let rest = s.drop_last();
        assert forall|i: int, j: int|
            0 <= i < rest.len() && 0 <= j < rest.len() && i != j implies #[trigger] key(rest[i])
            != #[trigger] key(rest[j]) by {
            assert(key(s[i]) != key(s[j]));
        }
        lemma_filter_keeps_unique(rest, key, pred);
        let kept = rest.filter(pred);
        if pred(s.last()) {
            let all = kept.push(s.last());
            assert forall|i: int, j: int|
                0 <= i < all.len() && 0 <= j < all.len() && i != j implies #[trigger] key(all[i])
                != #[trigger] key(all[j]) by {
                if i < kept.len() && j < kept.len() {
                    assert(key(kept[i]) != key(kept[j]));
                } else {
                    let m = if i < kept.len() {
                        i
                    } else {
                        j
                    };
                    lemma_filter_contains(rest, pred, kept[m]);
                    assert(kept.contains(kept[m]));
                    let n = choose|n: int| 0 <= n < rest.len() && rest[n] == kept[m];
                    assert(key(s[n]) != key(s[s.len() - 1]));
                }
            }
        }
    }
}

/// Removing a key that no row has changes nothing.
pub proof fn lemma_without_absent<A>(s: Seq<A>, key: spec_fn(A) -> u64, k: u64)
    requires
        !has_key(s, key, k),
    ensures
        without(s, key, k) == s,
    decreases s.len(),
{
    reveal(Seq::filter);
    if s.len() > 0 {
        let rest = s.drop_last();
        assert forall|i: int| 0 <= i < rest.len() implies #[trigger] key(rest[i]) != k by {
            assert(key(s[i]) != k);
        }
        lemma_without_absent(rest, key, k);
        assert(key(s[s.len() - 1]) != k);
        assert(rest.push(s.last()) =~= s);
    } else {
        assert(s.filter(differs(key, k)) =~= s);
    }
}

/// Where keys are unique, removing key `k` removes exactly the one row that has it.
pub proof fn lemma_without_unique<A>(s: Seq<A>, key: spec_fn(A) -> u64, k: u64, i: int)
    requires
        keys_unique(s, key),
        0 <= i < s.len(),
        key(s[i]) == k,
    ensures
        without(s, key, k) == s.remove(i),
    decreases s.len(),
{
    reveal(Seq::filter);
    let rest = s.drop_last();
    let last = s.len() - 1;
    assert forall|a: int, b: int|
        0 <= a < rest.len() && 0 <= b < rest.len() && a != b implies #[trigger] key(rest[a])
        != #[trigger] key(rest[b]) by {
        assert(key(s[a]) != key(s[b]));
    }
    if i == last {
        assert forall|a: int| 0 <= a < rest.len() implies #[trigger] key(rest[a]) != k by {
            assert(key(s[a]) != key(s[i]));
        }
        lemma_without_absent(rest, key, k);
        assert(s.remove(i) =~= rest);
    } else {
        assert(key(s[last]) != key(s[i]));
        assert(rest[i] == s[i]);
        lemma_without_unique(rest, key, k, i);
        assert(rest.remove(i).push(s.last()) =~= s.remove(i));
    }
}

/// Where keys are unique, a row with key `k` stands at the position of `k`.
pub proof fn lemma_position_unique<A>(s: Seq<A>, key: spec_fn(A) -> u64, k: u64, i: int)
    requires
        keys_unique(s, key),
        0 <= i < s.len(),
        key(s[i]) == k,
    ensures
        has_key(s, key, k),
        position_of(s, key, k) == i,
{
    let p = position_of(s, key, k);
    if p != i {
        assert(key(s[p]) != key(s[i]));
    }
}

/// The position of a key that is present holds a row with that key.
pub proof fn lemma_position_valid<A>(s: Seq<A>, key: spec_fn(A) -> u64, k: u64)
    requires
        has_key(s, key, k),
    ensures
        0 <= position_of(s, key, k) < s.len(),
        key(s[position_of(s, key, k)]) == k,
{
}

/// After a row is appended, a key is present exactly when it was present
/// before or is the key of the new row.
pub proof fn lemma_push_has_key<A>(s: Seq<A>, key: spec_fn(A) -> u64, a: A, k: u64)
    ensures
        has_key(s.push(a), key, k) <==> has_key(s, key, k) || key(a) == k,
{
    let t = s.push(a);
    if has_key(t, key, k) {
        let i = choose|i: int| 0 <= i < t.len() && #[trigger] key(t[i]) == k;
        if i < s.len() {
            assert(key(s[i]) == k);
        }
    }
    if has_key(s, key, k) {
        let i = choose|i: int| 0 <= i < s.len() && #[trigger] key(s[i]) == k;
        assert(key(t[i]) == k);
    }
    if key(a) == k {
        assert(key(t[s.len() as int]) == k);
    }
}

/// Appending a row whose key is new keeps keys unique.
pub proof fn lemma_push_keeps_unique<A>(s: Seq<A>, key: spec_fn(A) -> u64, a: A)
    requires
        keys_unique(s, key),
        !has_key(s, key, key(a)),
    ensures
        keys_unique(s.push(a), key),
{
    let t = s.push(a);
    assert forall|i: int, j: int|
        0 <= i < t.len() && 0 <= j < t.len() && i != j implies #[trigger] key(t[i])
        != #[trigger] key(t[j]) by {
        if i < s.len() && j < s.len() {
            assert(key(s[i]) != key(s[j]));
        } else if i < s.len() {
            assert(key(s[i]) != key(a));
        } else {
            assert(key(s[j]) != key(a));
        }
    }
}

/// Replacing a row by one with the same key changes neither which keys are
/// present nor that they are unique.
pub proof fn lemma_update_keys<A>(s: Seq<A>, key: spec_fn(A) -> u64, i: int, a: A, k: u64)
    requires
        0 <= i < s.len(),
        key(s[i]) == key(a),
    ensures
        has_key(s.update(i, a), key, k) <==> has_key(s, key, k),
        keys_unique(s, key) ==> keys_unique(s.update(i, a), key),
{
    let t = s.update(i, a);
    if has_key(t, key, k) {
        let m = choose|m: int| 0 <= m < t.len() && #[trigger] key(t[m]) == k;
        assert(key(s[m]) == k);
    }
    if has_key(s, key, k) {
        let m = choose|m: int| 0 <= m < s.len() && #[trigger] key(s[m]) == k;
        assert(key(t[m]) == k);
    }
    if keys_unique(s, key) {
        assert forall|x: int, y: int|
            0 <= x < t.len() && 0 <= y < t.len() && x != y implies #[trigger] key(t[x])
            != #[trigger] key(t[y]) by {
            assert(key(s[x]) != key(s[y]));
        }
    }
}

/// After a row with a new key is appended, it is the row at its key, and
/// the rows at the other keys are the rows that stood there before.
pub proof fn lemma_push_lookup<A>(s: Seq<A>, key: spec_fn(A) -> u64, a: A, k: u64)
    requires
        keys_unique(s, key),
        !has_key(s, key, key(a)),
    ensures
        s.push(a)[position_of(s.push(a), key, key(a))] == a,
        has_key(s, key, k) ==> s.push(a)[position_of(s.push(a), key, k)] == s[position_of(
            s,
            key,
            k,
        )],
{
    let t = s.push(a);
    lemma_push_keeps_unique(s, key, a);
    assert(key(t[s.len() as int]) == key(a));
    lemma_position_unique(t, key, key(a), s.len() as int);
    if has_key(s, key, k) {
        let i = position_of(s, key, k);
        assert(key(t[i]) == k);
        lemma_position_unique(t, key, k, i);
    }
}

/// After a row is replaced by one with the same key, the new row is the row
/// at that key, and the rows at the other keys are the rows that stood there
/// before.
pub proof fn lemma_update_lookup<A>(s: Seq<A>, key: spec_fn(A) -> u64, i: int, a: A, k: u64)
    requires
        keys_unique(s, key),
        0 <= i < s.len(),
        key(s[i]) == key(a),
    ensures
        s.update(i, a)[position_of(s.update(i, a), key, key(a))] == a,
        has_key(s, key, k) && k != key(a) ==> s.update(i, a)[position_of(s.update(i, a), key, k)]
            == s[position_of(s, key, k)],
{
    let t = s.update(i, a);
    lemma_update_keys(s, key, i, a, k);
    assert(key(t[i]) == key(a));
    lemma_position_unique(t, key, key(a), i);
    if has_key(s, key, k) && k != key(a) {
        let m = position_of(s, key, k);
        assert(key(t[m]) == k);
        lemma_position_unique(t, key, k, m);
    }
}

/// After filtering, a row that the predicate holds of is still the row at
/// its key.
pub proof fn lemma_filter_lookup<A>(
    s: Seq<A>,
    key: spec_fn(A) -> u64,
    pred: spec_fn(A) -> bool,
    k: u64,
)
    requires
        keys_unique(s, key),
        has_key(s, key, k),
        pred(s[position_of(s, key, k)]),
    ensures
        has_key(s.filter(pred), key, k),
        s.filter(pred)[position_of(s.filter(pred), key, k)] == s[position_of(s, key, k)],
{
    let kept = s.filter(pred);
    let row = s[position_of(s, key, k)];
    assert(s.contains(row));
    lemma_filter_contains(s, pred, row);
    let m = choose|m: int| 0 <= m < kept.len() && kept[m] == row;
    assert(key(kept[m]) == k);
    lemma_filter_keeps_unique(s, key, pred);
    lemma_position_unique(kept, key, k, m);
}

/// What is left of a relation after rows are removed obeys whatever every
/// row obeyed before, and each row left stood in the relation before.
pub proof fn lemma_without_rows<A>(s: Seq<A>, key: spec_fn(A) -> u64, k: u64, i: int)
    requires
        0 <= i < without(s, key, k).len(),
    ensures
        s.contains(without(s, key, k)[i]),
        key(without(s, key, k)[i]) != k,
{
    let kept = without(s, key, k);
    assert(kept.contains(kept[i]));
    lemma_filter_contains(s, differs(key, k), kept[i]);
}

/// Removing the rows with one key does not change which rows another key
/// selects.
pub proof fn lemma_selected_after_without<A>(s: Seq<A>, key: spec_fn(A) -> u64, k: u64, other: u64)
    requires
        other != k,
    ensures
        selected(without(s, key, k), key, other) == selected(s, key, other),
    decreases s.len(),
{
    reveal(Seq::filter);
    if s.len() > 0 {
        lemma_selected_after_without(s.drop_last(), key, k, other);
        let kept = without(s.drop_last(), key, k);
        if key(s.last()) != k {
            assert(kept.push(s.last()).drop_last() =~= kept);
        }
    }
}

/// Filtering keeps rows pairwise distinct.
pub proof fn lemma_without_keeps_distinct<A>(s: Seq<A>, pred: spec_fn(A) -> bool)
    requires
        forall|i: int, j: int|
            0 <= i < s.len() && 0 <= j < s.len() && i != j ==> #[trigger] s[i] != #[trigger] s[j],
    ensures
        forall|i: int, j: int|
            0 <= i < s.filter(pred).len() && 0 <= j < s.filter(pred).len() && i != j
                ==> #[trigger] s.filter(pred)[i] != #[trigger] s.filter(pred)[j],
    decreases s.len(),
{
    reveal(Seq::filter);
    if s.len() > 0 {
        let rest = s.drop_last();
        assert forall|i: int, j: int|
            0 <= i < rest.len() && 0 <= j < rest.len() && i != j implies #[trigger] rest[i]
            != #[trigger] rest[j] by {
            assert(s[i] != s[j]);
        }
        lemma_without_keeps_distinct(rest, pred);
        let kept = rest.filter(pred);
        if pred(s.last()) {
            let all = kept.push(s.last());
            assert forall|i: int, j: int|
                0 <= i < all.len() && 0 <= j < all.len() && i != j implies #[trigger] all[i]
                != #[trigger] all[j] by {
                if i < kept.len() && j < kept.len() {
                    assert(kept[i] != kept[j]);
                } else {
                    let m = if i < kept.len() {
                        i
                    } else {
                        j
                    };
                    lemma_filter_contains(rest, pred, kept[m]);
                    assert(kept.contains(kept[m]));
                    let n = choose|n: int| 0 <= n < rest.len() && rest[n] == kept[m];
                    assert(s[n] != s[s.len() - 1]);
                }
            }
        }
    }
}

/// Where no row has key `k`, selecting by `k` gives nothing.
pub proof fn lemma_none_selected<A>(s: Seq<A>, key: spec_fn(A) -> u64, k: u64)
    requires
        forall|i: int| 0 <= i < s.len() ==> #[trigger] key(s[i]) != k,
    ensures
        selected(s, key, k) == Seq::<A>::empty(),
    decreases s.len(),
{
    reveal(Seq::filter);
    if s.len() > 0 {
        let rest = s.drop_last();
        assert forall|i: int| 0 <= i < rest.len() implies #[trigger] key(rest[i]) != k by {
            assert(key(s[i]) != k);
        }
        lemma_none_selected(rest, key, k);
        assert(key(s[s.len() - 1]) != k);
    } else {
        assert(s.filter(matches_key(key, k)) =~= Seq::<A>::empty());
    }
}

/// Appending a row adds it to the rows its key selects, and to no others.
pub proof fn lemma_selected_after_push<A>(s: Seq<A>, key: spec_fn(A) -> u64, a: A, k: u64)
    ensures
        selected(s.push(a), key, k) == if key(a) == k {
            selected(s, key, k).push(a)
        } else {
            selected(s, key, k)
        },
{
    reveal(Seq::filter);
    assert(s.push(a).drop_last() =~= s);
}

} // verus!
