//! Tables of rows that are found by a key.
use crate::duplicate::Duplicate;
use crate::text;
use vstd::prelude::*;

verus! {

/// A row with its key.
pub trait Keyed: Duplicate {
    spec fn key(v: Self::V) -> Seq<Seq<char>>;

    fn key_texts(&self) -> (r: Vec<String>)
        ensures
            r.deep_view() == Self::key(self.deep_view()),
    ;
}

/// The first row with this key.
pub open spec fn row<T: Keyed>(rows: Seq<T::V>, key: Seq<Seq<char>>) -> Option<T::V>
    decreases rows.len(),
{
    if rows.len() == 0 {
        None
    } else if T::key(rows[0]) == key {
        Some(rows[0])
    } else {
        row::<T>(rows.drop_first(), key)
    }
}

/// The rows with `new` in place of the one with its key, or at the end.
pub open spec fn with_row<T: Keyed>(rows: Seq<T::V>, new: T::V) -> Seq<T::V>
    decreases rows.len(),
{
    if rows.len() == 0 {
        seq![new]
    } else if T::key(rows[0]) == T::key(new) {
        seq![new] + rows.drop_first()
    } else {
        seq![rows[0]] + with_row::<T>(rows.drop_first(), new)
    }
}

/// The rows that have another key.
pub open spec fn without_key<T: Keyed>(rows: Seq<T::V>, key: Seq<Seq<char>>) -> Seq<T::V>
    decreases rows.len(),
{
    if rows.len() == 0 {
        rows
    } else if T::key(rows.last()) == key {
        without_key::<T>(rows.drop_last(), key)
    } else {
        without_key::<T>(rows.drop_last(), key).push(rows.last())
    }
}

/// A row that was put is found under its key, and no other key is touched.
pub proof fn law_row_is_found<T: Keyed>(rows: Seq<T::V>, new: T::V, other: Seq<Seq<char>>)
    ensures
        row::<T>(with_row::<T>(rows, new), T::key(new)) == Some(new),
        other != T::key(new) ==> row::<T>(with_row::<T>(rows, new), other) == row::<T>(rows, other),
    decreases rows.len(),
{
    let result = with_row::<T>(rows, new);
    if rows.len() == 0 {
        assert(result.drop_first() =~= rows);
    } else if T::key(rows[0]) == T::key(new) {
        assert(result.drop_first() =~= rows.drop_first());
    } else {
        law_row_is_found::<T>(rows.drop_first(), new, other);
        assert(result.drop_first() =~= with_row::<T>(rows.drop_first(), new));
    }
}

pub proof fn lemma_row_push<T: Keyed>(rows: Seq<T::V>, last: T::V, key: Seq<Seq<char>>)
    ensures
        row::<T>(rows.push(last), key) == (match row::<T>(rows, key) {
            Some(found) => Some(found),
            None => if T::key(last) == key {
                Some(last)
            } else {
                None
            },
        }),
    decreases rows.len(),
{
    if rows.len() > 0 {
        lemma_row_push::<T>(rows.drop_first(), last, key);
        assert(rows.push(last).drop_first() =~= rows.drop_first().push(last));
    } else {
        assert(rows.push(last).drop_first() =~= rows);
    }
}

/// What was removed is not found any more, and no other key is touched.
pub proof fn law_removed_key_is_gone<T: Keyed>(
    rows: Seq<T::V>,
    key: Seq<Seq<char>>,
    other: Seq<Seq<char>>,
)
    ensures
        row::<T>(without_key::<T>(rows, key), key) is None,
        other != key ==> row::<T>(without_key::<T>(rows, key), other) == row::<T>(rows, other),
    decreases rows.len(),
{
    if rows.len() > 0 {
        let front = rows.drop_last();
        law_removed_key_is_gone::<T>(front, key, other);
        assert(rows =~= front.push(rows.last()));
        lemma_row_push::<T>(front, rows.last(), other);
        if T::key(rows.last()) != key {
            lemma_row_push::<T>(without_key::<T>(front, key), rows.last(), key);
            lemma_row_push::<T>(without_key::<T>(front, key), rows.last(), other);
        }
    }
}

/// Whether no key stands in the table twice.
pub open spec fn distinct_keys<T: Keyed>(rows: Seq<T::V>) -> bool {
    forall|i: int, j: int|
        0 <= i < j < rows.len() ==> T::key(#[trigger] rows[i]) != T::key(#[trigger] rows[j])
}

pub proof fn lemma_row_is_in_table<T: Keyed>(rows: Seq<T::V>, key: Seq<Seq<char>>)
    requires
        row::<T>(rows, key) is Some,
    ensures
        rows.contains(row::<T>(rows, key)->0),
        T::key(row::<T>(rows, key)->0) == key,
    decreases rows.len(),
{
    if T::key(rows[0]) != key {
        let rest = rows.drop_first();
        lemma_row_is_in_table::<T>(rest, key);
        let i = choose|i: int| 0 <= i < rest.len() && rest[i] == row::<T>(rest, key)->0;
        assert(rows[i + 1] == row::<T>(rows, key)->0);
    } else {
        assert(rows.contains(rows[0]));
    }
}

pub proof fn lemma_table_row_is_found<T: Keyed>(rows: Seq<T::V>, i: int)
    requires
        0 <= i < rows.len(),
        distinct_keys::<T>(rows),
    ensures
        row::<T>(rows, T::key(rows[i])) == Some(rows[i]),
    decreases rows.len(),
{
    if i > 0 {
        let rest = rows.drop_first();
        assert forall|a: int, b: int| 0 <= a < b < rest.len() implies T::key(#[trigger] rest[a])
            != T::key(#[trigger] rest[b]) by {
            assert(T::key(rows[a + 1]) != T::key(rows[b + 1]));
        }
        lemma_table_row_is_found::<T>(rest, i - 1);
        assert(T::key(rows[0]) != T::key(rows[i]));
    }
}

pub proof fn lemma_with_row_items<T: Keyed>(rows: Seq<T::V>, new: T::V, i: int)
    requires
        0 <= i < with_row::<T>(rows, new).len(),
    ensures
        with_row::<T>(rows, new)[i] == new || exists|j: int|
            0 <= j < rows.len() && #[trigger] rows[j] == with_row::<T>(rows, new)[i],
    decreases rows.len(),
{
    let result = with_row::<T>(rows, new);
    if rows.len() == 0 {
    } else if T::key(rows[0]) == T::key(new) {
        if i > 0 {
            assert(rows[i] == result[i]);
        }
    } else if i == 0 {
        assert(rows[0] == result[0]);
    } else {
        let rest = rows.drop_first();
        lemma_with_row_items::<T>(rest, new, i - 1);
        assert(result[i] == with_row::<T>(rest, new)[i - 1]);
        if result[i] != new {
            let j = choose|j: int|
                0 <= j < rest.len() && #[trigger] rest[j] == with_row::<T>(rest, new)[i - 1];
            assert(rows[j + 1] == result[i]);
        }
    }
}

/// Putting a row keeps every key in the table once.
pub proof fn law_put_keeps_keys_distinct<T: Keyed>(rows: Seq<T::V>, new: T::V)
    requires
        distinct_keys::<T>(rows),
    ensures
        distinct_keys::<T>(with_row::<T>(rows, new)),
    decreases rows.len(),
{
    let result = with_row::<T>(rows, new);
    if rows.len() == 0 {
    } else if T::key(rows[0]) == T::key(new) {
        assert forall|i: int, j: int| 0 <= i < j < result.len() implies T::key(#[trigger] result[i])
            != T::key(#[trigger] result[j]) by {
            assert(T::key(rows[i]) != T::key(rows[j]));
        }
    } else {
        let rest = rows.drop_first();
        assert forall|i: int, j: int| 0 <= i < j < rest.len() implies T::key(#[trigger] rest[i])
            != T::key(#[trigger] rest[j]) by {
            assert(T::key(rows[i + 1]) != T::key(rows[j + 1]));
        }
        law_put_keeps_keys_distinct::<T>(rest, new);
        let tail = with_row::<T>(rest, new);
        assert forall|i: int, j: int| 0 <= i < j < result.len() implies T::key(#[trigger] result[i])
            != T::key(#[trigger] result[j]) by {
            assert(result[j] == tail[j - 1]);
            if i > 0 {
                assert(T::key(tail[i - 1]) != T::key(tail[j - 1]));
            } else {
                lemma_with_row_items::<T>(rest, new, j - 1);
                if tail[j - 1] != new {
                    let k = choose|k: int| 0 <= k < rest.len() && #[trigger] rest[k] == tail[j - 1];
                    assert(T::key(rows[0]) != T::key(rows[k + 1]));
                }
            }
        }
    }
}

pub proof fn lemma_without_key_items<T: Keyed>(rows: Seq<T::V>, key: Seq<Seq<char>>, v: T::V)
    ensures
        without_key::<T>(rows, key).contains(v) <==> rows.contains(v) && T::key(v) != key,
    decreases rows.len(),
{
    if rows.len() > 0 {
        let front = rows.drop_last();
        lemma_without_key_items::<T>(front, key, v);
        assert(rows =~= front.push(rows.last()));
        assert(rows.contains(v) <==> front.contains(v) || v == rows.last()) by {
            if front.contains(v) {
                let i = choose|i: int| 0 <= i < front.len() && front[i] == v;
                assert(rows[i] == v);
            }
            if rows.contains(v) {
                let i = choose|i: int| 0 <= i < rows.len() && rows[i] == v;
                if i < front.len() {
                    assert(front[i] == v);
                }
            }
            assert(rows[rows.len() - 1] == rows.last());
        }
        if T::key(rows.last()) != key {
            let kept = without_key::<T>(front, key);
            let all = kept.push(rows.last());
            assert(all.contains(v) <==> kept.contains(v) || v == rows.last()) by {
                if kept.contains(v) {
                    let i = choose|i: int| 0 <= i < kept.len() && kept[i] == v;
                    assert(all[i] == v);
                }
                if all.contains(v) {
                    let i = choose|i: int| 0 <= i < all.len() && all[i] == v;
                    if i < kept.len() {
                        assert(kept[i] == v);
                    }
                }
                assert(all[all.len() - 1] == rows.last());
            }
        }
    }
}

/// Removing a key keeps every other key in the table once.
pub proof fn law_removal_keeps_keys_distinct<T: Keyed>(rows: Seq<T::V>, key: Seq<Seq<char>>)
    requires
        distinct_keys::<T>(rows),
    ensures
        distinct_keys::<T>(without_key::<T>(rows, key)),
    decreases rows.len(),
{
    if rows.len() > 0 {
        let front = rows.drop_last();
        assert forall|i: int, j: int| 0 <= i < j < front.len() implies T::key(#[trigger] front[i])
            != T::key(#[trigger] front[j]) by {
            assert(T::key(rows[i]) != T::key(rows[j]));
        }
        law_removal_keeps_keys_distinct::<T>(front, key);
        if T::key(rows.last()) != key {
            let kept = without_key::<T>(front, key);
            let all = kept.push(rows.last());
            assert forall|i: int, j: int| 0 <= i < j < all.len() implies T::key(#[trigger] all[i])
                != T::key(#[trigger] all[j]) by {
                if j < kept.len() {
                    assert(T::key(kept[i]) != T::key(kept[j]));
                } else {
                    lemma_without_key_items::<T>(front, key, kept[i]);
                    assert(kept.contains(kept[i]));
                    let k = choose|k: int| 0 <= k < front.len() && front[k] == kept[i];
                    assert(T::key(rows[k]) != T::key(rows[rows.len() - 1]));
                }
            }
        }
    }
}

/// Whether two lists hold the same texts.
pub fn same_list(a: &Vec<String>, b: &Vec<String>) -> (r: bool)
    ensures
        r == (a.deep_view() == b.deep_view()),
{
    if a.len() != b.len() {
        proof {
            assert(a.deep_view().len() != b.deep_view().len());
        }
        return false;
    }
    let mut i: usize = 0;
    while i < a.len()
        invariant
            i <= a@.len() == b@.len(),
            forall|j: int| 0 <= j < i ==> #[trigger] a@[j]@ == b@[j]@,
        decreases a@.len() - i,
    {
        if !text::same(a[i].as_str(), b[i].as_str()) {
            proof {
                assert(a.deep_view()[i as int] != b.deep_view()[i as int]);
            }
            return false;
        }
        i = i + 1;
    }
    proof {
        assert(a.deep_view() =~= b.deep_view());
    }
    true
}

pub fn find_row<'a, T: Keyed>(rows: &'a Vec<T>, key: &Vec<String>) -> (r: Option<&'a T>)
    ensures
        match r {
            Some(found) => row::<T>(rows.deep_view(), key.deep_view()) == Some(found.deep_view()),
            None => row::<T>(rows.deep_view(), key.deep_view()) is None,
        },
{
    let ghost all = rows.deep_view();
    let mut i: usize = 0;
    proof {
        assert(all.skip(0) =~= all);
    }
    while i < rows.len()
        invariant
            i <= rows@.len(),
            all == rows.deep_view(),
            row::<T>(all.skip(i as int), key.deep_view()) == row::<T>(all, key.deep_view()),
        decreases rows@.len() - i,
    {
        proof {
            assert(all.skip(i as int)[0] == rows@[i as int].deep_view());
            assert(all.skip(i as int).drop_first() =~= all.skip(i + 1));
        }
        if same_list(&rows[i].key_texts(), key) {
            return Some(&rows[i]);
        }
        i = i + 1;
    }
    None
}

pub fn put_row<T: Keyed>(rows: &mut Vec<T>, new: T)
    ensures
        final(rows).deep_view() == with_row::<T>(old(rows).deep_view(), new.deep_view()),
{
    let key = new.key_texts();
    let ghost all = rows.deep_view();
    let ghost was = rows@;
    let ghost value = new.deep_view();
    let mut i: usize = 0;
    proof {
        assert(all.skip(0) =~= all);
        assert(all.take(0) + with_row::<T>(all.skip(0), value) =~= with_row::<T>(all, value));
    }
    while i < rows.len()
        invariant
            i <= rows@.len(),
            rows@ == was,
            all == rows.deep_view(),
            all == old(rows).deep_view(),
            value == new.deep_view(),
            key.deep_view() == T::key(value),
            all.take(i as int) + with_row::<T>(all.skip(i as int), value) == with_row::<T>(
                all,
                value,
            ),
        decreases rows@.len() - i,
    {
        let ghost rest = all.skip(i as int);
        proof {
            assert(rest[0] == was[i as int].deep_view());
            assert(rest.drop_first() =~= all.skip(i + 1));
        }
        if same_list(&rows[i].key_texts(), &key) {
            rows.set(i, new);
            proof {
                assert(rows.deep_view() =~= all.take(i as int) + (seq![value] + rest.drop_first()));
            }
            return;
        }
        proof {
            assert(all.take(i + 1) + with_row::<T>(all.skip(i + 1), value) =~= all.take(i as int)
                + with_row::<T>(rest, value));
        }
        i = i + 1;
    }
    rows.push(new);
    proof {
        assert(all.skip(i as int) =~= Seq::empty());
        assert(rows.deep_view() =~= all.take(i as int) + seq![value]);
    }
}

pub fn remove_key<T: Keyed>(rows: &Vec<T>, key: &Vec<String>) -> (r: Vec<T>)
    ensures
        r.deep_view() == without_key::<T>(rows.deep_view(), key.deep_view()),
{
    let ghost all = rows.deep_view();
    let mut out: Vec<T> = Vec::new();
    let mut i: usize = 0;
    proof {
        assert(out.deep_view() =~= without_key::<T>(all.take(0), key.deep_view()));
    }
    while i < rows.len()
        invariant
            i <= rows@.len(),
            all == rows.deep_view(),
            out.deep_view() == without_key::<T>(all.take(i as int), key.deep_view()),
        decreases rows@.len() - i,
    {
        let ghost before = out.deep_view();
        proof {
            assert(all.take(i + 1).drop_last() =~= all.take(i as int));
            assert(all.take(i + 1).last() == rows@[i as int].deep_view());
        }
        if !same_list(&rows[i].key_texts(), key) {
            out.push(rows[i].duplicate());
            proof {
                assert(out.deep_view() =~= before.push(rows@[i as int].deep_view()));
            }
        }
        i = i + 1;
    }
    proof {
        assert(all.take(i as int) =~= all);
    }
    out
}

} // verus!
