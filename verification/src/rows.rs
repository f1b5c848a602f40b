//! Row-sequence reasoning shared by the catalog tables.
//!
//! A table is a sequence of rows; a key function projects the column
//! a lookup goes by. `find_by` is the first match, `select_by` keeps
//! the matching rows in order, `reject_by` keeps the rest.

use vstd::prelude::*;

verus! {

/// No two rows share a key.
pub open spec fn unique_key<T>(s: Seq<T>, key: spec_fn(T) -> Seq<char>) -> bool {
    forall|i: int, j: int| 0 <= i < j < s.len() ==> key(s[i]) != key(s[j])
}

/// The first row whose key equals `id`.
pub open spec fn find_by<T>(s: Seq<T>, key: spec_fn(T) -> Seq<char>, id: Seq<char>) -> Option<T>
    decreases s.len(),
{
    if s.len() == 0 {
        None
    } else if key(s[0]) == id {
        Some(s[0])
    } else {
        find_by(s.drop_first(), key, id)
    }
}

/// The rows whose key equals `id`, in table order.
pub open spec fn select_by<T>(s: Seq<T>, key: spec_fn(T) -> Seq<char>, id: Seq<char>) -> Seq<T>
    decreases s.len(),
{
    if s.len() == 0 {
        s
    } else if key(s[0]) == id {
        seq![s[0]] + select_by(s.drop_first(), key, id)
    } else {
        select_by(s.drop_first(), key, id)
    }
}

/// The rows whose key differs from `id`, in table order.
pub open spec fn reject_by<T>(s: Seq<T>, key: spec_fn(T) -> Seq<char>, id: Seq<char>) -> Seq<T>
    decreases s.len(),
{
    if s.len() == 0 {
        s
    } else if key(s[0]) == id {
        reject_by(s.drop_first(), key, id)
    } else {
        seq![s[0]] + reject_by(s.drop_first(), key, id)
    }
}

pub proof fn lemma_find_by_snoc<T>(s: Seq<T>, x: T, key: spec_fn(T) -> Seq<char>, id: Seq<char>)
    ensures
        find_by(s.push(x), key, id) == (match find_by(s, key, id) {
            Some(u) => Some(u),
            None => if key(x) == id {
                Some(x)
            } else {
                None
            },
        }),
    decreases s.len(),
{
    reveal_with_fuel(find_by, 3);
    if s.len() == 0 {
        assert(s.push(x)[0] == x);
        assert(s.push(x).drop_first() =~= Seq::<T>::empty());
    } else {
        assert(s.push(x).drop_first() =~= s.drop_first().push(x));
        lemma_find_by_snoc(s.drop_first(), x, key, id);
    }
}

pub proof fn lemma_select_by_snoc<T>(s: Seq<T>, x: T, key: spec_fn(T) -> Seq<char>, id: Seq<char>)
    ensures
        key(x) == id ==> select_by(s.push(x), key, id) == select_by(s, key, id).push(x),
        key(x) != id ==> select_by(s.push(x), key, id) == select_by(s, key, id),
    decreases s.len(),
{
    reveal_with_fuel(select_by, 3);
    if s.len() == 0 {
        assert(s.push(x)[0] == x);
        assert(s.push(x).drop_first() =~= Seq::<T>::empty());
        if key(x) == id {
            assert(select_by(s.push(x), key, id) =~= select_by(s, key, id).push(x));
        }
    } else {
        assert(s.push(x).drop_first() =~= s.drop_first().push(x));
        lemma_select_by_snoc(s.drop_first(), x, key, id);
        if key(x) == id {
            if key(s[0]) == id {
                assert(select_by(s.push(x), key, id) =~= select_by(s, key, id).push(x));
            }
        }
    }
}

pub proof fn lemma_reject_by_snoc<T>(s: Seq<T>, x: T, key: spec_fn(T) -> Seq<char>, id: Seq<char>)
    ensures
        key(x) == id ==> reject_by(s.push(x), key, id) == reject_by(s, key, id),
        key(x) != id ==> reject_by(s.push(x), key, id) == reject_by(s, key, id).push(x),
    decreases s.len(),
{
    reveal_with_fuel(reject_by, 3);
    if s.len() == 0 {
        assert(s.push(x)[0] == x);
        assert(s.push(x).drop_first() =~= Seq::<T>::empty());
        if key(x) != id {
            assert(reject_by(s.push(x), key, id) =~= reject_by(s, key, id).push(x));
        }
    } else {
        assert(s.push(x).drop_first() =~= s.drop_first().push(x));
        lemma_reject_by_snoc(s.drop_first(), x, key, id);
        if key(x) != id {
            if key(s[0]) != id {
                assert(reject_by(s.push(x), key, id) =~= reject_by(s, key, id).push(x));
            }
        }
    }
}

/// `find_by` misses exactly when no row matches.
pub proof fn lemma_find_by_none<T>(s: Seq<T>, key: spec_fn(T) -> Seq<char>, id: Seq<char>)
    ensures
        find_by(s, key, id) is None <==> (forall|i: int| 0 <= i < s.len() ==> key(#[trigger] s[i])
            != id),
    decreases s.len(),
{
    if s.len() > 0 {
        lemma_find_by_none(s.drop_first(), key, id);
        if find_by(s, key, id) is None {
            assert forall|i: int| 0 <= i < s.len() implies key(#[trigger] s[i]) != id by {
                if i > 0 {
                    assert(s.drop_first()[i - 1] == s[i]);
                }
            }
        } else {
            if key(s[0]) != id {
                let j = choose|j: int|
                    0 <= j < s.drop_first().len() && key(#[trigger] s.drop_first()[j]) == id;
                assert(s[j + 1] == s.drop_first()[j]);
            }
        }
    }
}

/// A hit of `find_by` is a row of the table, matches the key, and is
/// the first such row.
pub proof fn lemma_find_by_some<T>(s: Seq<T>, key: spec_fn(T) -> Seq<char>, id: Seq<char>)
    requires
        find_by(s, key, id) is Some,
    ensures
        key(find_by(s, key, id)->Some_0) == id,
        s.contains(find_by(s, key, id)->Some_0),
    decreases s.len(),
{
    if key(s[0]) != id {
        lemma_find_by_some(s.drop_first(), key, id);
        let u = find_by(s, key, id)->Some_0;
        let j = choose|j: int| 0 <= j < s.drop_first().len() && s.drop_first()[j] == u;
        assert(s[j + 1] == u);
    }
}

/// If the rows before `i` miss the key and row `i` matches, then
/// `find_by` returns row `i`.
pub proof fn lemma_find_by_at<T>(s: Seq<T>, key: spec_fn(T) -> Seq<char>, id: Seq<char>, i: int)
    requires
        0 <= i < s.len(),
        forall|j: int| 0 <= j < i ==> key(#[trigger] s[j]) != id,
        key(s[i]) == id,
    ensures
        find_by(s, key, id) == Some(s[i]),
    decreases i,
{
    if i > 0 {
        assert(forall|j: int|
            0 <= j < i - 1 ==> key(#[trigger] s.drop_first()[j]) == key(s[j + 1]));
        lemma_find_by_at(s.drop_first(), key, id, i - 1);
    }
}

/// Every selected row matches the key and comes from the table.
pub proof fn lemma_select_by_props<T>(s: Seq<T>, key: spec_fn(T) -> Seq<char>, id: Seq<char>)
    ensures
        select_by(s, key, id).len() <= s.len(),
        forall|i: int| 0 <= i < select_by(s, key, id).len() ==> key(
            #[trigger] select_by(s, key, id)[i],
        ) == id,
        forall|i: int| 0 <= i < select_by(s, key, id).len() ==> s.contains(
            #[trigger] select_by(s, key, id)[i],
        ),
        (forall|i: int| 0 <= i < s.len() ==> key(#[trigger] s[i]) != id) ==> select_by(
            s,
            key,
            id,
        ).len() == 0,
    decreases s.len(),
{
    if s.len() > 0 {
        lemma_select_by_props(s.drop_first(), key, id);
        let out = select_by(s, key, id);
        let rest = select_by(s.drop_first(), key, id);
        assert forall|i: int| 0 <= i < out.len() implies s.contains(#[trigger] out[i]) by {
            if key(s[0]) == id && i == 0 {
                assert(out[0] == s[0]);
            } else {
                let k = if key(s[0]) == id {
                    i - 1
                } else {
                    i
                };
                assert(rest[k] == out[i]);
                let j = choose|j: int| 0 <= j < s.drop_first().len() && s.drop_first()[j] == rest[k];
                assert(s[j + 1] == out[i]);
            }
        }
        if forall|i: int| 0 <= i < s.len() ==> key(#[trigger] s[i]) != id {
            assert(forall|i: int|
                0 <= i < s.drop_first().len() ==> key(#[trigger] s.drop_first()[i]) != id);
        }
    }
}

/// Every kept row comes from the table and misses the key.
pub proof fn lemma_reject_by_props<T>(s: Seq<T>, key: spec_fn(T) -> Seq<char>, id: Seq<char>)
    ensures
        reject_by(s, key, id).len() <= s.len(),
        forall|i: int| 0 <= i < reject_by(s, key, id).len() ==> key(
            #[trigger] reject_by(s, key, id)[i],
        ) != id,
        forall|i: int| 0 <= i < reject_by(s, key, id).len() ==> s.contains(
            #[trigger] reject_by(s, key, id)[i],
        ),
    decreases s.len(),
{
    if s.len() > 0 {
        lemma_reject_by_props(s.drop_first(), key, id);
        let out = reject_by(s, key, id);
        let rest = reject_by(s.drop_first(), key, id);
        assert forall|i: int| 0 <= i < out.len() implies s.contains(#[trigger] out[i]) by {
            if key(s[0]) != id && i == 0 {
                assert(out[0] == s[0]);
            } else {
                let k = if key(s[0]) != id {
                    i - 1
                } else {
                    i
                };
                assert(rest[k] == out[i]);
                let j = choose|j: int| 0 <= j < s.drop_first().len() && s.drop_first()[j] == rest[k];
                assert(s[j + 1] == out[i]);
            }
        }
    }
}

/// Selecting and rejecting by one key keeps key-uniqueness under any
/// other key column.
pub proof fn lemma_split_by_unique<T>(
    s: Seq<T>,
    key: spec_fn(T) -> Seq<char>,
    id: Seq<char>,
    key2: spec_fn(T) -> Seq<char>,
)
    requires
        unique_key(s, key2),
    ensures
        unique_key(select_by(s, key, id), key2),
        unique_key(reject_by(s, key, id), key2),
    decreases s.len(),
{
    if s.len() > 0 {
        let t = s.drop_first();
        assert(unique_key(t, key2)) by {
            assert(forall|i: int| 0 <= i < t.len() ==> #[trigger] t[i] == s[i + 1]);
        }
        lemma_split_by_unique(t, key, id, key2);
        lemma_select_by_props(t, key, id);
        lemma_reject_by_props(t, key, id);
        let sel = select_by(s, key, id);
        let rej = reject_by(s, key, id);
        assert forall|i: int, j: int| 0 <= i < j < sel.len() implies key2(sel[i]) != key2(
            sel[j],
        ) by {
            if key(s[0]) == id && i == 0 {
                let selt = select_by(t, key, id);
                assert(sel[j] == selt[j - 1]);
                assert(t.contains(sel[j]));
                let m = choose|m: int| 0 <= m < t.len() && t[m] == sel[j];
                assert(s[m + 1] == sel[j]);
                assert(key2(s[0]) != key2(s[m + 1]));
            } else {
                let selt = select_by(t, key, id);
                let off = if key(s[0]) == id {
                    1int
                } else {
                    0int
                };
                assert(sel[i] == selt[i - off] && sel[j] == selt[j - off]);
            }
        }
        assert forall|i: int, j: int| 0 <= i < j < rej.len() implies key2(rej[i]) != key2(
            rej[j],
        ) by {
            if key(s[0]) != id && i == 0 {
                let rejt = reject_by(t, key, id);
                assert(rej[j] == rejt[j - 1]);
                assert(t.contains(rej[j]));
                let m = choose|m: int| 0 <= m < t.len() && t[m] == rej[j];
                assert(s[m + 1] == rej[j]);
                assert(key2(s[0]) != key2(s[m + 1]));
            } else {
                let rejt = reject_by(t, key, id);
                let off = if key(s[0]) != id {
                    1int
                } else {
                    0int
                };
                assert(rej[i] == rejt[i - off] && rej[j] == rejt[j - off]);
            }
        }
    }
}

/// Under a unique key, a matching row is the one `find_by` returns.
pub proof fn lemma_find_by_unique<T>(s: Seq<T>, key: spec_fn(T) -> Seq<char>, id: Seq<char>, i: int)
    requires
        unique_key(s, key),
        0 <= i < s.len(),
        key(s[i]) == id,
    ensures
        find_by(s, key, id) == Some(s[i]),
{
    assert(forall|j: int| 0 <= j < i ==> key(#[trigger] s[j]) != id);
    lemma_find_by_at(s, key, id, i);
}

/// A row whose key differs survives the rejection.
pub proof fn lemma_reject_by_keeps<T>(s: Seq<T>, key: spec_fn(T) -> Seq<char>, id: Seq<char>, i: int)
    requires
        0 <= i < s.len(),
        key(s[i]) != id,
    ensures
        reject_by(s, key, id).contains(s[i]),
    decreases s.len(),
{
    let t = s.drop_first();
    assert(forall|j: int| 0 <= j < t.len() ==> #[trigger] t[j] == s[j + 1]);
    if key(s[0]) == id {
        lemma_reject_by_keeps(t, key, id, i - 1);
    } else {
        if i == 0 {
            assert(reject_by(s, key, id)[0] == s[0]);
        } else {
            lemma_reject_by_keeps(t, key, id, i - 1);
            let out = reject_by(t, key, id);
            let m = choose|m: int| 0 <= m < out.len() && out[m] == s[i];
            assert(reject_by(s, key, id)[m + 1] == s[i]);
        }
    }
}

/// Rejecting one key does not disturb the selection of another.
pub proof fn lemma_select_after_reject<T>(
    s: Seq<T>,
    key: spec_fn(T) -> Seq<char>,
    id1: Seq<char>,
    id2: Seq<char>,
)
    requires
        id1 != id2,
    ensures
        select_by(reject_by(s, key, id1), key, id2) == select_by(s, key, id2),
    decreases s.len(),
{
    reveal_with_fuel(select_by, 3);
    reveal_with_fuel(reject_by, 3);
    if s.len() > 0 {
        let t = s.drop_first();
        lemma_select_after_reject(t, key, id1, id2);
        if key(s[0]) == id1 {
            assert(reject_by(s, key, id1) == reject_by(t, key, id1));
            assert(select_by(s, key, id2) == select_by(t, key, id2));
        } else {
            let rej = reject_by(s, key, id1);
            assert(rej == seq![s[0]] + reject_by(t, key, id1));
            assert(rej[0] == s[0]);
            assert(rej.drop_first() =~= reject_by(t, key, id1));
            if key(s[0]) == id2 {
                assert(select_by(rej, key, id2) == seq![rej[0]] + select_by(
                    rej.drop_first(),
                    key,
                    id2,
                ));
                assert(select_by(s, key, id2) == seq![s[0]] + select_by(t, key, id2));
            } else {
                assert(select_by(rej, key, id2) == select_by(rej.drop_first(), key, id2));
                assert(select_by(s, key, id2) == select_by(t, key, id2));
            }
        }
    }
}

/// Rejecting a key no row carries keeps the table as it was.
pub proof fn lemma_reject_by_nomatch<T>(s: Seq<T>, key: spec_fn(T) -> Seq<char>, id: Seq<char>)
    requires
        forall|i: int| 0 <= i < s.len() ==> key(#[trigger] s[i]) != id,
    ensures
        reject_by(s, key, id) == s,
    decreases s.len(),
{
    if s.len() > 0 {
        let t = s.drop_first();
        assert(forall|i: int| 0 <= i < t.len() ==> #[trigger] t[i] == s[i + 1]);
        lemma_reject_by_nomatch(t, key, id);
        assert(reject_by(s, key, id) =~= s);
    }
}

/// Under a unique key no row value occurs twice.
pub proof fn lemma_unique_key_count<T>(s: Seq<T>, key: spec_fn(T) -> Seq<char>, x: T)
    requires
        unique_key(s, key),
    ensures
        s.to_multiset().count(x) <= 1,
    decreases s.len(),
{
    broadcast use vstd::seq_lib::group_to_multiset_ensures;

    if s.len() > 0 {
        let t = s.drop_first();
        assert(unique_key(t, key)) by {
            assert(forall|i: int| 0 <= i < t.len() ==> #[trigger] t[i] == s[i + 1]);
        }
        lemma_unique_key_count(t, key, x);
        assert(s.remove(0) =~= t);
        assert(s.remove(0).to_multiset() =~= s.to_multiset().remove(s[0]));
        if x == s[0] {
            assert(!t.contains(x)) by {
                assert(forall|i: int| 0 <= i < t.len() ==> #[trigger] t[i] == s[i + 1]);
            }
            assert(t.to_multiset().count(x) == 0);
            assert(s.to_multiset().count(x) <= 1) by {
                broadcast use vstd::multiset::group_multiset_axioms;
            }
        } else {
            assert(s.to_multiset().count(x) == t.to_multiset().count(x)) by {
                broadcast use vstd::multiset::group_multiset_axioms;
            }
        }
    } else {
        assert(s.to_multiset().len() == 0);
        assert(s.to_multiset().count(x) <= s.to_multiset().len()) by {
            broadcast use vstd::multiset::group_multiset_axioms;
        }
    }
}

} // verus!
