//! Order: of texts, of lists, and of entries that are found by their key.
use crate::duplicate::Duplicate;
use crate::text;
use vstd::prelude::*;

verus! {

/// The order of texts by their first differing character; a text follows its own beginnings.
pub open spec fn precedes(a: Seq<char>, b: Seq<char>) -> bool
    decreases a.len(),
{
    if b.len() == 0 {
        false
    } else if a.len() == 0 {
        true
    } else if a[0] != b[0] {
        a[0] < b[0]
    } else {
        precedes(a.drop_first(), b.drop_first())
    }
}

pub proof fn lemma_precedes_irreflexive(a: Seq<char>)
    ensures
        !precedes(a, a),
    decreases a.len(),
{
    if a.len() > 0 {
        lemma_precedes_irreflexive(a.drop_first());
    }
}

pub proof fn lemma_precedes_transitive(a: Seq<char>, b: Seq<char>, c: Seq<char>)
    requires
        precedes(a, b),
        precedes(b, c),
    ensures
        precedes(a, c),
    decreases a.len(),
{
    if a.len() > 0 && a[0] == b[0] && b[0] == c[0] {
        lemma_precedes_transitive(a.drop_first(), b.drop_first(), c.drop_first());
    }
}

pub proof fn lemma_precedes_total(a: Seq<char>, b: Seq<char>)
    ensures
        a == b || precedes(a, b) || precedes(b, a),
    decreases a.len(),
{
    if a.len() > 0 && b.len() > 0 && a[0] == b[0] {
        lemma_precedes_total(a.drop_first(), b.drop_first());
        if a.drop_first() == b.drop_first() {
            assert(a =~= seq![a[0]] + a.drop_first());
            assert(b =~= seq![b[0]] + b.drop_first());
        }
    } else if a.len() == 0 && b.len() == 0 {
        assert(a =~= b);
    }
}

pub proof fn lemma_precedes_asymmetric(a: Seq<char>, b: Seq<char>)
    requires
        precedes(a, b),
    ensures
        !precedes(b, a),
{
    if precedes(b, a) {
        lemma_precedes_transitive(a, b, a);
        lemma_precedes_irreflexive(a);
    }
}

/// A text that does not precede a second one precedes nothing that the second one does not.
pub proof fn lemma_precedes_ranks(a: Seq<char>, b: Seq<char>, c: Seq<char>)
    ensures
        precedes(a, b) ==> !precedes(b, a) && a != b,
        !precedes(a, b) && !precedes(b, c) ==> !precedes(a, c) && (a == c ==> a == b),
{
    lemma_precedes_irreflexive(a);
    lemma_precedes_total(a, b);
    lemma_precedes_total(b, c);
    if precedes(a, b) {
        lemma_precedes_asymmetric(a, b);
    } else if !precedes(b, c) && precedes(a, c) {
        lemma_precedes_asymmetric(a, c);
        if a != b && b != c {
            lemma_precedes_transitive(c, b, a);
        }
    }
}

pub fn comes_before(a: &str, b: &str) -> (r: bool)
    ensures
        r == precedes(a@, b@),
{
    let x = text::chars_of(a);
    let y = text::chars_of(b);
    let mut i: usize = 0;
    proof {
        assert(x@.skip(0) =~= x@);
        assert(y@.skip(0) =~= y@);
    }
    loop
        invariant
            i <= x@.len(),
            i <= y@.len(),
            x@ == a@,
            y@ == b@,
            precedes(x@.skip(i as int), y@.skip(i as int)) == precedes(a@, b@),
        decreases x@.len() - i,
    {
        if i >= y.len() {
            return false;
        }
        if i >= x.len() {
            return true;
        }
        if x[i] != y[i] {
            return x[i] < y[i];
        }
        proof {
            assert(x@.skip(i as int).drop_first() =~= x@.skip(i + 1));
            assert(y@.skip(i as int).drop_first() =~= y@.skip(i + 1));
        }
        i = i + 1;
    }
}

/// Whether the keys grow from each entry to the next, so that none stands there twice.
pub open spec fn sorted_keys<V>(entries: Seq<(Seq<char>, V)>) -> bool {
    forall|i: int, j: int|
        0 <= i < j < entries.len() ==> precedes(#[trigger] entries[i].0, #[trigger] entries[j].0)
}

/// The value of the first entry with this key.
pub open spec fn value_of<V>(entries: Seq<(Seq<char>, V)>, key: Seq<char>) -> Option<V>
    decreases entries.len(),
{
    if entries.len() == 0 {
        None
    } else if entries[0].0 == key {
        Some(entries[0].1)
    } else {
        value_of(entries.drop_first(), key)
    }
}

/// The entries with `value` under `key`: in place of what was there, or where its order puts it.
pub open spec fn with_entry<V>(
    entries: Seq<(Seq<char>, V)>,
    key: Seq<char>,
    value: V,
) -> Seq<(Seq<char>, V)>
    decreases entries.len(),
{
    if entries.len() == 0 {
        seq![(key, value)]
    } else if entries[0].0 == key {
        seq![(key, value)] + entries.drop_first()
    } else if precedes(key, entries[0].0) {
        seq![(key, value)] + entries
    } else {
        seq![entries[0]] + with_entry(entries.drop_first(), key, value)
    }
}

/// What was put under a key is found there, and every other key keeps its value.
pub proof fn law_entry_is_found<V>(
    entries: Seq<(Seq<char>, V)>,
    key: Seq<char>,
    value: V,
    other: Seq<char>,
)
    ensures
        value_of(with_entry(entries, key, value), key) == Some(value),
        other != key ==> value_of(with_entry(entries, key, value), other) == value_of(
            entries,
            other,
        ),
    decreases entries.len(),
{
    let result = with_entry(entries, key, value);
    if entries.len() == 0 {
        assert(result.drop_first() =~= entries);
    } else if entries[0].0 == key {
        assert(result.drop_first() =~= entries.drop_first());
    } else if precedes(key, entries[0].0) {
        assert(result.drop_first() =~= entries);
    } else {
        law_entry_is_found(entries.drop_first(), key, value, other);
        assert(result.drop_first() =~= with_entry(entries.drop_first(), key, value));
    }
}

pub proof fn lemma_with_entry_keys<V>(entries: Seq<(Seq<char>, V)>, key: Seq<char>, value: V, i: int)
    requires
        0 <= i < with_entry(entries, key, value).len(),
    ensures
        with_entry(entries, key, value)[i].0 == key || exists|j: int|
            0 <= j < entries.len() && entries[j] == with_entry(entries, key, value)[i],
    decreases entries.len(),
{
    let result = with_entry(entries, key, value);
    if entries.len() == 0 {
    } else if entries[0].0 == key {
        if i > 0 {
            assert(entries[i] == result[i]);
        }
    } else if precedes(key, entries[0].0) {
        if i > 0 {
            assert(entries[i - 1] == result[i]);
        }
    } else if i == 0 {
        assert(entries[0] == result[0]);
    } else {
        lemma_with_entry_keys(entries.drop_first(), key, value, i - 1);
        if result[i].0 != key {
            let j = choose|j: int|
                0 <= j < entries.drop_first().len() && entries.drop_first()[j] == with_entry(
                    entries.drop_first(),
                    key,
                    value,
                )[i - 1];
            assert(entries[j + 1] == result[i]);
        }
    }
}

/// Putting an entry keeps the keys in order, each of them once.
pub proof fn law_entries_stay_sorted<V>(entries: Seq<(Seq<char>, V)>, key: Seq<char>, value: V)
    requires
        sorted_keys(entries),
    ensures
        sorted_keys(with_entry(entries, key, value)),
    decreases entries.len(),
{
    let result = with_entry(entries, key, value);
    if entries.len() == 0 {
    } else if entries[0].0 == key {
        assert forall|i: int, j: int| 0 <= i < j < result.len() implies precedes(
            #[trigger] result[i].0,
            #[trigger] result[j].0,
        ) by {
            assert(precedes(entries[i].0, entries[j].0));
        }
    } else if precedes(key, entries[0].0) {
        assert forall|i: int, j: int| 0 <= i < j < result.len() implies precedes(
            #[trigger] result[i].0,
            #[trigger] result[j].0,
        ) by {
            if i > 0 {
                assert(precedes(entries[i - 1].0, entries[j - 1].0));
            } else if j > 1 {
                assert(precedes(entries[0].0, entries[j - 1].0));
                lemma_precedes_transitive(key, entries[0].0, entries[j - 1].0);
            }
        }
    } else {
        let rest = entries.drop_first();
        assert forall|i: int, j: int| 0 <= i < j < rest.len() implies precedes(
            #[trigger] rest[i].0,
            #[trigger] rest[j].0,
        ) by {
            assert(precedes(entries[i + 1].0, entries[j + 1].0));
        }
        law_entries_stay_sorted(rest, key, value);
        lemma_precedes_total(key, entries[0].0);
        assert forall|i: int, j: int| 0 <= i < j < result.len() implies precedes(
            #[trigger] result[i].0,
            #[trigger] result[j].0,
        ) by {
            let tail = with_entry(rest, key, value);
            if i > 0 {
                assert(precedes(tail[i - 1].0, tail[j - 1].0));
            } else {
                lemma_with_entry_keys(rest, key, value, j - 1);
                if tail[j - 1].0 != key {
                    let k = choose|k: int| 0 <= k < rest.len() && rest[k] == tail[j - 1];
                    assert(precedes(entries[0].0, entries[k + 1].0));
                }
            }
        }
    }
}

/// Finds the value under a key.
pub fn find_value<'a, T: DeepView>(entries: &'a Vec<(String, T)>, key: &str) -> (r: Option<&'a T>)
    ensures
        match r {
            Some(value) => value_of(entries.deep_view(), key@) == Some(value.deep_view()),
            None => value_of(entries.deep_view(), key@) is None,
        },
{
    let ghost all = entries.deep_view();
    let mut i: usize = 0;
    proof {
        assert(all.skip(0) =~= all);
    }
    while i < entries.len()
        invariant
            i <= entries@.len(),
            all == entries.deep_view(),
            value_of(all.skip(i as int), key@) == value_of(all, key@),
        decreases entries@.len() - i,
    {
        proof {
            assert(all.skip(i as int)[0] == (entries@[i as int].0@, entries@[i as int].1.deep_view()));
        }
        if text::same(entries[i].0.as_str(), key) {
            return Some(&entries[i].1);
        }
        proof {
            assert(all.skip(i as int).drop_first() =~= all.skip(i + 1));
        }
        i = i + 1;
    }
    None
}

/// Puts a value under a key.
pub fn put_entry<T: DeepView>(entries: &mut Vec<(String, T)>, key: String, value: T)
    ensures
        final(entries).deep_view() == with_entry(old(entries).deep_view(), key@, value.deep_view()),
{
    let ghost all = entries.deep_view();
    let ghost was = entries@;
    let mut i: usize = 0;
    proof {
        assert(all.skip(0) =~= all);
        assert(all.take(0) + with_entry(all.skip(0), key@, value.deep_view()) =~= with_entry(
            all,
            key@,
            value.deep_view(),
        ));
    }
    while i < entries.len()
        invariant
            i <= entries@.len(),
            entries@ == was,
            all == entries.deep_view(),
            all == old(entries).deep_view(),
            all.take(i as int) + with_entry(all.skip(i as int), key@, value.deep_view())
                == with_entry(all, key@, value.deep_view()),
        decreases entries@.len() - i,
    {
        let ghost rest = all.skip(i as int);
        proof {
            assert(rest[0] == (was[i as int].0@, was[i as int].1.deep_view()));
            assert(rest.drop_first() =~= all.skip(i + 1));
        }
        if entries[i].0 == key {
            let ghost pair = (key@, value.deep_view());
            entries.set(i, (key, value));
            proof {
                assert(entries.deep_view() =~= all.take(i as int) + (seq![pair] + rest.drop_first()));
            }
            return;
        }
        if comes_before(key.as_str(), entries[i].0.as_str()) {
            let ghost pair = (key@, value.deep_view());
            entries.insert(i, (key, value));
            proof {
                assert(entries.deep_view() =~= all.take(i as int) + (seq![pair] + rest));
            }
            return;
        }
        proof {
            assert(all.take(i + 1) + with_entry(all.skip(i + 1), key@, value.deep_view())
                =~= all.take(i as int) + with_entry(rest, key@, value.deep_view()));
        }
        i = i + 1;
    }
    let ghost pair = (key@, value.deep_view());
    entries.push((key, value));
    proof {
        assert(all.skip(i as int) =~= Seq::empty());
        assert(entries.deep_view() =~= all.take(i as int) + seq![pair]);
    }
}

/// The entries in the order of their keys; of those with the same key the last one counts.
pub open spec fn in_key_order<V>(entries: Seq<(Seq<char>, V)>) -> Seq<(Seq<char>, V)>
    decreases entries.len(),
{
    if entries.len() == 0 {
        Seq::empty()
    } else {
        with_entry(in_key_order(entries.drop_last()), entries.last().0, entries.last().1)
    }
}

/// Entries that were put in the order of their keys are sorted, and each key stands there once.
/// Entries that were sorted before stay as they are.
pub proof fn law_key_order_is_sorted<V>(entries: Seq<(Seq<char>, V)>)
    ensures
        sorted_keys(in_key_order(entries)),
        sorted_keys(entries) ==> in_key_order(entries) == entries,
    decreases entries.len(),
{
    if entries.len() == 0 {
        assert(in_key_order(entries) =~= entries);
    } else {
        let front = entries.drop_last();
        law_key_order_is_sorted(front);
        law_entries_stay_sorted(in_key_order(front), entries.last().0, entries.last().1);
        if sorted_keys(entries) {
            assert forall|i: int, j: int| 0 <= i < j < front.len() implies precedes(
                #[trigger] front[i].0,
                #[trigger] front[j].0,
            ) by {
                assert(precedes(entries[i].0, entries[j].0));
            }
            assert forall|i: int| 0 <= i < front.len() implies precedes(
                #[trigger] front[i].0,
                entries.last().0,
            ) by {
                assert(precedes(entries[i].0, entries[entries.len() - 1].0));
            }
            lemma_last_entry(front, entries.last().0, entries.last().1);
            assert(front.push(entries.last()) =~= entries);
        }
    }
}

/// An entry whose key follows all others is put at the end.
proof fn lemma_last_entry<V>(entries: Seq<(Seq<char>, V)>, key: Seq<char>, value: V)
    requires
        forall|i: int| 0 <= i < entries.len() ==> precedes(#[trigger] entries[i].0, key),
    ensures
        with_entry(entries, key, value) == entries.push((key, value)),
    decreases entries.len(),
{
    if entries.len() == 0 {
        assert(with_entry(entries, key, value) =~= entries.push((key, value)));
    } else {
        let rest = entries.drop_first();
        assert(precedes(entries[0].0, key));
        lemma_precedes_irreflexive(key);
        lemma_precedes_asymmetric(entries[0].0, key);
        assert forall|i: int| 0 <= i < rest.len() implies precedes(#[trigger] rest[i].0, key) by {
            assert(precedes(entries[i + 1].0, key));
        }
        lemma_last_entry(rest, key, value);
        assert(with_entry(entries, key, value) =~= entries.push((key, value)));
    }
}

/// Puts entries in the order of their keys.
pub fn key_ordered<T: Duplicate>(entries: &Vec<(String, T)>) -> (r: Vec<(String, T)>)
    ensures
        r.deep_view() == in_key_order(entries.deep_view()),
{
    let ghost given = entries.deep_view();
    let mut sorted: Vec<(String, T)> = Vec::new();
    let mut i: usize = 0;
    proof {
        assert(sorted.deep_view() =~= in_key_order(given.take(0)));
    }
    while i < entries.len()
        invariant
            i <= entries@.len(),
            given == entries.deep_view(),
            sorted.deep_view() == in_key_order(given.take(i as int)),
        decreases entries@.len() - i,
    {
        proof {
            assert(given.take(i + 1).drop_last() =~= given.take(i as int));
            assert(given.take(i + 1).last() == entries@[i as int].deep_view());
        }
        put_entry(&mut sorted, entries[i].0.clone(), entries[i].1.duplicate());
        i = i + 1;
    }
    proof {
        assert(given.take(i as int) =~= given);
    }
    sorted
}

/// A type whose values are put in order by a comparison of their contents.
pub trait Ranked: DeepView + Sized {
    spec fn before(a: Self::V, b: Self::V) -> bool;

    /// Compares two items. Of two items at most one comes before the other, and what does not
    /// come before the other item comes before nothing that the other item does not come before.
    fn ranks_before(&self, other: &Self) -> (r: bool)
        ensures
            r == Self::before(self.deep_view(), other.deep_view()),
            r ==> !Self::before(other.deep_view(), self.deep_view()),
            forall|third: Self::V|
                !r && !(#[trigger] Self::before(other.deep_view(), third)) ==> !Self::before(
                    self.deep_view(),
                    third,
                ),
    ;
}

/// A sorted list with one more item, behind those that it does not come before.
pub open spec fn ranked_insert<T: Ranked>(s: Seq<T::V>, x: T::V) -> Seq<T::V>
    decreases s.len(),
{
    if s.len() > 0 && T::before(x, s.last()) {
        ranked_insert::<T>(s.drop_last(), x).push(s.last())
    } else {
        s.push(x)
    }
}

/// The items in order; equal ones stay in the order in which they came.
pub open spec fn ranked<T: Ranked>(s: Seq<T::V>) -> Seq<T::V>
    decreases s.len(),
{
    if s.len() == 0 {
        s
    } else {
        ranked_insert::<T>(ranked::<T>(s.drop_last()), s.last())
    }
}

/// Whether `before` is an order in which items may tie.
pub open spec fn is_ranking<T: Ranked>() -> bool {
    &&& forall|a: T::V, b: T::V| #[trigger] T::before(a, b) ==> !T::before(b, a)
    &&& forall|a: T::V, b: T::V, c: T::V|
        !(#[trigger] T::before(b, a)) && !(#[trigger] T::before(c, b)) ==> !T::before(c, a)
}

pub open spec fn in_order<T: Ranked>(s: Seq<T::V>) -> bool {
    forall|i: int, j: int| 0 <= i < j < s.len() ==> !T::before(#[trigger] s[j], #[trigger] s[i])
}

pub proof fn lemma_ranked_insert<T: Ranked>(s: Seq<T::V>, x: T::V)
    ensures
        ranked_insert::<T>(s, x).to_multiset() == s.to_multiset().insert(x),
        ranked_insert::<T>(s, x).len() == s.len() + 1,
        is_ranking::<T>() && in_order::<T>(s) ==> in_order::<T>(ranked_insert::<T>(s, x)),
        forall|i: int|
            0 <= i < ranked_insert::<T>(s, x).len() ==> (#[trigger] ranked_insert::<T>(s, x)[i] == x
                || s.contains(ranked_insert::<T>(s, x)[i])),
    decreases s.len(),
{
    broadcast use vstd::seq_lib::group_to_multiset_ensures;

    let r = ranked_insert::<T>(s, x);
    if s.len() > 0 && T::before(x, s.last()) {
        let front = s.drop_last();
        let inner = ranked_insert::<T>(front, x);
        lemma_ranked_insert::<T>(front, x);
        assert(s =~= front.push(s.last()));
        assert(r.to_multiset() =~= s.to_multiset().insert(x));
        assert forall|i: int| 0 <= i < r.len() implies (#[trigger] r[i] == x || s.contains(r[i])) by {
            if i < r.len() - 1 {
                assert(r[i] == inner[i]);
                if r[i] != x {
                    let k = choose|k: int| 0 <= k < front.len() && front[k] == inner[i];
                    assert(s[k] == r[i]);
                }
            } else {
                assert(s[s.len() - 1] == r[i]);
            }
        }
        if is_ranking::<T>() && in_order::<T>(s) {
            assert forall|i: int, j: int| 0 <= i < j < front.len() implies !T::before(
                #[trigger] front[j],
                #[trigger] front[i],
            ) by {
                assert(!T::before(s[j], s[i]));
            }
            assert forall|i: int, j: int| 0 <= i < j < r.len() implies !T::before(
                #[trigger] r[j],
                #[trigger] r[i],
            ) by {
                if j < r.len() - 1 {
                    assert(!T::before(inner[j], inner[i]));
                } else {
                    assert(r[i] == inner[i]);
                    if r[i] != x {
                        let k = choose|k: int| 0 <= k < front.len() && front[k] == inner[i];
                        assert(s[k] == r[i]);
                        assert(!T::before(s[s.len() - 1], s[k]));
                    }
                }
            }
        }
    } else {
        assert forall|i: int| 0 <= i < r.len() implies (#[trigger] r[i] == x || s.contains(r[i])) by {
            if i < s.len() {
                assert(s[i] == r[i]);
            }
        }
        if is_ranking::<T>() && in_order::<T>(s) {
            assert forall|i: int, j: int| 0 <= i < j < r.len() implies !T::before(
                #[trigger] r[j],
                #[trigger] r[i],
            ) by {
                if j < s.len() {
                    assert(!T::before(s[j], s[i]));
                } else if i < s.len() - 1 {
                    assert(!T::before(s[s.len() - 1], s[i]));
                    assert(!T::before(x, s[s.len() - 1]));
                }
            }
        }
    }
}

/// Sorting loses nothing, adds nothing, and leaves no item behind one that it comes before.
pub proof fn law_ranked_is_sorted<T: Ranked>(s: Seq<T::V>)
    ensures
        ranked::<T>(s).to_multiset() == s.to_multiset(),
        ranked::<T>(s).len() == s.len(),
        is_ranking::<T>() ==> in_order::<T>(ranked::<T>(s)),
    decreases s.len(),
{
    broadcast use vstd::seq_lib::group_to_multiset_ensures;

    if s.len() > 0 {
        law_ranked_is_sorted::<T>(s.drop_last());
        lemma_ranked_insert::<T>(ranked::<T>(s.drop_last()), s.last());
        assert(s =~= s.drop_last().push(s.last()));
    }
}

/// An item is inserted at one place, and everything else stays as it was.
pub proof fn lemma_ranked_insert_position<T: Ranked>(s: Seq<T::V>, x: T::V) -> (k: int)
    ensures
        0 <= k <= s.len(),
        ranked_insert::<T>(s, x) == s.insert(k, x),
    decreases s.len(),
{
    if s.len() > 0 && T::before(x, s.last()) {
        let k = lemma_ranked_insert_position::<T>(s.drop_last(), x);
        assert(ranked_insert::<T>(s, x) =~= s.insert(k, x));
        k
    } else {
        assert(ranked_insert::<T>(s, x) =~= s.insert(s.len() as int, x));
        s.len() as int
    }
}

/// One more item goes in front of those at the end that it comes before, and behind all others: what
/// it ties with stays in front of it.
pub proof fn law_items_follow_their_equals<T: Ranked>(s: Seq<T::V>, x: T::V) -> (k: int)
    ensures
        0 <= k <= s.len(),
        ranked::<T>(s.push(x)) == ranked::<T>(s).insert(k, x),
        forall|i: int| k <= i < s.len() ==> T::before(x, #[trigger] ranked::<T>(s)[i]),
        k > 0 ==> !T::before(x, ranked::<T>(s)[k - 1]),
        ranked::<T>(s).len() == s.len(),
{
    assert(s.push(x).drop_last() =~= s);
    law_ranked_is_sorted::<T>(s);
    lemma_insert_behind::<T>(ranked::<T>(s), x)
}

proof fn lemma_insert_behind<T: Ranked>(s: Seq<T::V>, x: T::V) -> (k: int)
    ensures
        0 <= k <= s.len(),
        ranked_insert::<T>(s, x) == s.insert(k, x),
        forall|i: int| k <= i < s.len() ==> T::before(x, #[trigger] s[i]),
        k > 0 ==> !T::before(x, s[k - 1]),
    decreases s.len(),
{
    if s.len() > 0 && T::before(x, s.last()) {
        let front = s.drop_last();
        let k = lemma_insert_behind::<T>(front, x);
        assert(ranked_insert::<T>(s, x) =~= s.insert(k, x));
        assert forall|i: int| k <= i < s.len() implies T::before(x, #[trigger] s[i]) by {
            if i < front.len() {
                assert(T::before(x, front[i]));
            }
        }
        k
    } else {
        assert(ranked_insert::<T>(s, x) =~= s.insert(s.len() as int, x));
        s.len() as int
    }
}

/// Whether `coarse` is an order, and `before` never contradicts it.
pub open spec fn is_coarsening<T: Ranked>(coarse: spec_fn(T::V, T::V) -> bool) -> bool {
    &&& forall|a: T::V, b: T::V| #[trigger] coarse(a, b) ==> T::before(a, b) && !T::before(b, a)
    &&& forall|a: T::V, b: T::V, c: T::V|
        !(#[trigger] coarse(b, a)) && !(#[trigger] coarse(c, b)) ==> !coarse(c, a)
}

pub open spec fn in_coarse_order<V>(s: Seq<V>, coarse: spec_fn(V, V) -> bool) -> bool {
    forall|i: int, j: int| 0 <= i < j < s.len() ==> !coarse(#[trigger] s[j], #[trigger] s[i])
}

/// Sorting puts the items in every order that the comparison refines.
pub proof fn law_ranked_respects_coarser_orders<T: Ranked>(
    s: Seq<T::V>,
    coarse: spec_fn(T::V, T::V) -> bool,
)
    requires
        is_coarsening::<T>(coarse),
    ensures
        in_coarse_order(ranked::<T>(s), coarse),
    decreases s.len(),
{
    if s.len() > 0 {
        law_ranked_respects_coarser_orders::<T>(s.drop_last(), coarse);
        lemma_insert_respects::<T>(ranked::<T>(s.drop_last()), s.last(), coarse);
    }
}

proof fn lemma_insert_respects<T: Ranked>(
    s: Seq<T::V>,
    x: T::V,
    coarse: spec_fn(T::V, T::V) -> bool,
)
    requires
        is_coarsening::<T>(coarse),
        in_coarse_order(s, coarse),
    ensures
        in_coarse_order(ranked_insert::<T>(s, x), coarse),
    decreases s.len(),
{
    let r = ranked_insert::<T>(s, x);
    if s.len() > 0 && T::before(x, s.last()) {
        let front = s.drop_last();
        let inner = ranked_insert::<T>(front, x);
        assert forall|i: int, j: int| 0 <= i < j < front.len() implies !coarse(
            #[trigger] front[j],
            #[trigger] front[i],
        ) by {
            assert(!coarse(s[j], s[i]));
        }
        lemma_insert_respects::<T>(front, x, coarse);
        let k = lemma_ranked_insert_position::<T>(front, x);
        assert(!coarse(s.last(), x));
        assert forall|i: int, j: int| 0 <= i < j < r.len() implies !coarse(
            #[trigger] r[j],
            #[trigger] r[i],
        ) by {
            if j < r.len() - 1 {
                assert(!coarse(inner[j], inner[i]));
            } else {
                assert(r[i] == inner[i]);
                if i < k {
                    assert(!coarse(s[s.len() - 1], s[i]));
                } else if i > k {
                    assert(inner[i] == front[i - 1]);
                    assert(!coarse(s[s.len() - 1], s[i - 1]));
                }
            }
        }
    } else {
        assert forall|i: int, j: int| 0 <= i < j < r.len() implies !coarse(
            #[trigger] r[j],
            #[trigger] r[i],
        ) by {
            if j < s.len() {
                assert(!coarse(s[j], s[i]));
            } else {
                assert(!coarse(x, s.last()));
                if i < s.len() - 1 {
                    assert(!coarse(s[s.len() - 1], s[i]));
                }
            }
        }
    }
}

fn insert_ranked<T: Ranked>(items: &mut Vec<T>, x: T)
    ensures
        final(items).deep_view() == ranked_insert::<T>(old(items).deep_view(), x.deep_view()),
        in_order::<T>(old(items).deep_view()) ==> in_order::<T>(final(items).deep_view()),
{
    let ghost all = items.deep_view();
    let ghost was = items@;
    let mut i: usize = items.len();
    proof {
        assert(all.take(i as int) =~= all);
        assert(ranked_insert::<T>(all.take(i as int), x.deep_view()) + all.skip(i as int)
            =~= ranked_insert::<T>(all, x.deep_view()));
    }
    while i > 0 && x.ranks_before(&items[i - 1])
        invariant
            i <= items@.len(),
            items@ == was,
            all == items.deep_view(),
            ranked_insert::<T>(all.take(i as int), x.deep_view()) + all.skip(i as int)
                == ranked_insert::<T>(all, x.deep_view()),
            forall|j: int| i <= j < all.len() ==> !T::before(#[trigger] all[j], x.deep_view()),
        decreases i,
    {
        proof {
            let front = all.take(i as int);
            assert(front.last() == was[i - 1].deep_view());
            assert(front.drop_last() =~= all.take(i - 1));
            assert(ranked_insert::<T>(all.take(i - 1), x.deep_view()) + all.skip(i - 1)
                =~= ranked_insert::<T>(front, x.deep_view()) + all.skip(i as int));
        }
        i = i - 1;
    }
    proof {
        if i > 0 {
            assert(all.take(i as int).last() == was[i - 1].deep_view());
        }
    }
    let ghost value = x.deep_view();
    proof {
        if i > 0 && in_order::<T>(all) {
            assert forall|j: int| 0 <= j < i implies !T::before(value, #[trigger] all[j]) by {
                if j < i - 1 {
                    assert(!T::before(all[i - 1], all[j]));
                }
            }
        }
    }
    items.insert(i, x);
    proof {
        let now = items.deep_view();
        assert(now =~= all.take(i as int).push(value) + all.skip(i as int));
        if in_order::<T>(all) {
            assert forall|p: int, q: int| 0 <= p < q < now.len() implies !T::before(
                #[trigger] now[q],
                #[trigger] now[p],
            ) by {
                let was_p = if p < i {
                    p
                } else {
                    p - 1
                };
                let was_q = if q < i {
                    q
                } else {
                    q - 1
                };
                if p == i {
                    assert(now[q] == all[was_q]);
                } else if q == i {
                    assert(now[p] == all[was_p]);
                } else {
                    assert(!T::before(all[was_q], all[was_p]));
                }
            }
        }
    }
}

/// Puts the items in order.
pub fn sort<T: Ranked + Duplicate>(items: &Vec<T>) -> (r: Vec<T>)
    ensures
        r.deep_view() == ranked::<T>(items.deep_view()),
        in_order::<T>(r.deep_view()),
{
    let ghost all = items.deep_view();
    let mut out: Vec<T> = Vec::new();
    let mut i: usize = 0;
    proof {
        assert(out.deep_view() =~= ranked::<T>(all.take(0)));
    }
    while i < items.len()
        invariant
            i <= items@.len(),
            all == items.deep_view(),
            out.deep_view() == ranked::<T>(all.take(i as int)),
            in_order::<T>(out.deep_view()),
        decreases items@.len() - i,
    {
        insert_ranked(&mut out, items[i].duplicate());
        proof {
            assert(all.take(i + 1).drop_last() =~= all.take(i as int));
        }
        i = i + 1;
    }
    proof {
        assert(all.take(i as int) =~= all);
    }
    out
}

/// The texts with one more of them, where its order puts it; one that is there stays as it is.
pub open spec fn with_item(items: Seq<Seq<char>>, item: Seq<char>) -> Seq<Seq<char>>
    decreases items.len(),
{
    if items.len() == 0 {
        seq![item]
    } else if items[0] == item {
        items
    } else if precedes(item, items[0]) {
        seq![item] + items
    } else {
        seq![items[0]] + with_item(items.drop_first(), item)
    }
}

/// The texts of a list in order, each of them once.
pub open spec fn item_set(list: Seq<Seq<char>>) -> Seq<Seq<char>>
    decreases list.len(),
{
    if list.len() == 0 {
        Seq::empty()
    } else {
        with_item(item_set(list.drop_last()), list.last())
    }
}

/// A set holds what was put into it and what it held before, and nothing else.
pub proof fn law_item_is_in_set(items: Seq<Seq<char>>, item: Seq<char>, other: Seq<char>)
    ensures
        with_item(items, item).contains(other) <==> items.contains(other) || other == item,
    decreases items.len(),
{
    let all = with_item(items, item);
    if items.len() == 0 {
        assert(all[0] == item);
    } else if items[0] == item {
        assert(items.contains(item));
    } else if precedes(item, items[0]) {
        assert(all[0] == item);
        if items.contains(other) {
            let i = choose|i: int| 0 <= i < items.len() && items[i] == other;
            assert(all[i + 1] == other);
        }
        if all.contains(other) {
            let i = choose|i: int| 0 <= i < all.len() && all[i] == other;
            if i > 0 {
                assert(items[i - 1] == other);
            }
        }
    } else {
        let rest = items.drop_first();
        let tail = with_item(rest, item);
        law_item_is_in_set(rest, item, other);
        if items.contains(other) {
            let i = choose|i: int| 0 <= i < items.len() && items[i] == other;
            if i == 0 {
                assert(all[0] == other);
            } else {
                assert(rest[i - 1] == other);
                let j = choose|j: int| 0 <= j < tail.len() && tail[j] == other;
                assert(all[j + 1] == other);
            }
        }
        if other == item {
            let j = choose|j: int| 0 <= j < tail.len() && tail[j] == other;
            assert(all[j + 1] == other);
        }
        if all.contains(other) {
            let i = choose|i: int| 0 <= i < all.len() && all[i] == other;
            if i == 0 {
                assert(items[0] == other);
            } else {
                assert(tail[i - 1] == other);
                if rest.contains(other) {
                    let j = choose|j: int| 0 <= j < rest.len() && rest[j] == other;
                    assert(items[j + 1] == other);
                }
            }
        }
    }
}

/// A set made of a list holds the texts of the list.
pub proof fn law_item_set_holds_the_list(list: Seq<Seq<char>>, item: Seq<char>)
    ensures
        item_set(list).contains(item) <==> list.contains(item),
    decreases list.len(),
{
    if list.len() > 0 {
        let front = list.drop_last();
        law_item_set_holds_the_list(front, item);
        law_item_is_in_set(item_set(front), list.last(), item);
        assert(list =~= front.push(list.last()));
        assert(list.contains(item) <==> front.contains(item) || item == list.last()) by {
            assert(list[list.len() - 1] == list.last());
            if front.contains(item) {
                let i = choose|i: int| 0 <= i < front.len() && front[i] == item;
                assert(list[i] == item);
            }
            if list.contains(item) {
                let i = choose|i: int| 0 <= i < list.len() && list[i] == item;
                if i < front.len() {
                    assert(front[i] == item);
                }
            }
        }
    }
}

pub fn put_item(items: &mut Vec<String>, item: String)
    ensures
        final(items).deep_view() == with_item(old(items).deep_view(), item@),
{
    let ghost all = items.deep_view();
    let ghost was = items@;
    let mut i: usize = 0;
    proof {
        assert(all.skip(0) =~= all);
        assert(all.take(0) + with_item(all.skip(0), item@) =~= with_item(all, item@));
    }
    while i < items.len()
        invariant
            i <= items@.len(),
            items@ == was,
            all == items.deep_view(),
            all == old(items).deep_view(),
            all.take(i as int) + with_item(all.skip(i as int), item@) == with_item(all, item@),
        decreases items@.len() - i,
    {
        let ghost rest = all.skip(i as int);
        proof {
            assert(rest[0] == was[i as int]@);
            assert(rest.drop_first() =~= all.skip(i + 1));
        }
        if items[i] == item {
            proof {
                assert(all.take(i as int) + rest =~= all);
            }
            return;
        }
        if comes_before(item.as_str(), items[i].as_str()) {
            let ghost value = item@;
            items.insert(i, item);
            proof {
                assert(items.deep_view() =~= all.take(i as int) + (seq![value] + rest));
            }
            return;
        }
        proof {
            assert(all.take(i + 1) + with_item(all.skip(i + 1), item@) =~= all.take(i as int)
                + with_item(rest, item@));
        }
        i = i + 1;
    }
    let ghost value = item@;
    items.push(item);
    proof {
        assert(all.skip(i as int) =~= Seq::empty());
        assert(items.deep_view() =~= all.take(i as int) + seq![value]);
    }
}

/// Puts the texts of a list in order, each of them once.
pub fn set_of(list: &Vec<String>) -> (r: Vec<String>)
    ensures
        r.deep_view() == item_set(list.deep_view()),
{
    let ghost all = list.deep_view();
    let mut out: Vec<String> = Vec::new();
    let mut i: usize = 0;
    proof {
        assert(out.deep_view() =~= item_set(all.take(0)));
    }
    while i < list.len()
        invariant
            i <= list@.len(),
            all == list.deep_view(),
            out.deep_view() == item_set(all.take(i as int)),
        decreases list@.len() - i,
    {
        proof {
            assert(all.take(i + 1).drop_last() =~= all.take(i as int));
            assert(all.take(i + 1).last() == list@[i as int]@);
        }
        put_item(&mut out, list[i].clone());
        i = i + 1;
    }
    proof {
        assert(all.take(i as int) =~= all);
    }
    out
}

} // verus!
